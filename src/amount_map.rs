//! A map from accounts to amounts with unique keys, kept in insertion order.

use vstd::prelude::*;
use crate::address::Address;
use crate::amount::{Amount, saturate};

verus! {

/// No key occurs twice.
pub open spec fn keys_unique(s: Seq<(Address, Amount)>) -> bool {
    forall|i: int, j: int|
        0 <= i < s.len() && 0 <= j < s.len() && #[trigger] s[i].0 == #[trigger] s[j].0 ==> i == j
}

/// The sum of the values.
pub open spec fn sum_of(s: Seq<(Address, Amount)>) -> nat
    decreases s.len(),
{
    if s.len() == 0 {
        0
    } else {
        sum_of(s.drop_last()) + s.last().1@
    }
}

/// The position of the last entry under `k`, or -1.
pub open spec fn index_of(s: Seq<(Address, Amount)>, k: Address) -> int
    decreases s.len(),
{
    if s.len() == 0 {
        -1
    } else if s.last().0 == k {
        s.len() - 1
    } else {
        index_of(s.drop_last(), k)
    }
}

/// The value under `k`, if any.
pub open spec fn get_of(s: Seq<(Address, Amount)>, k: Address) -> Option<Amount> {
    if index_of(s, k) >= 0 {
        Some(s[index_of(s, k)].1)
    } else {
        None
    }
}

/// `s` with `k` mapped to `v`: an existing entry is overwritten in place, a
/// new one goes last.
pub open spec fn insert_of(s: Seq<(Address, Amount)>, k: Address, v: Amount) -> Seq<(Address, Amount)> {
    if index_of(s, k) >= 0 {
        s.update(index_of(s, k), (k, v))
    } else {
        s.push((k, v))
    }
}

/// `s` without the entry under `k`; the others keep their order.
pub open spec fn remove_of(s: Seq<(Address, Amount)>, k: Address) -> Seq<(Address, Amount)> {
    if index_of(s, k) >= 0 {
        s.remove(index_of(s, k))
    } else {
        s
    }
}

pub proof fn lemma_index_of(s: Seq<(Address, Amount)>, k: Address)
    ensures
        -1 <= index_of(s, k) < s.len(),
        index_of(s, k) >= 0 ==> s[index_of(s, k)].0 == k,
        index_of(s, k) == -1 <==> forall|j: int| 0 <= j < s.len() ==> s[j].0 != k,
    decreases s.len(),
{
    if s.len() > 0 {
        lemma_index_of(s.drop_last(), k);
        if s.last().0 != k {
            assert forall|j: int| 0 <= j < s.len() - 1 implies s[j] == s.drop_last()[j] by {}
        }
    }
}

pub proof fn lemma_index_of_unique(s: Seq<(Address, Amount)>, k: Address, i: int)
    requires
        keys_unique(s),
        0 <= i < s.len(),
        s[i].0 == k,
    ensures
        index_of(s, k) == i,
{
    lemma_index_of(s, k);
}

pub proof fn lemma_sum_update(s: Seq<(Address, Amount)>, i: int, x: (Address, Amount))
    requires
        0 <= i < s.len(),
    ensures
        sum_of(s.update(i, x)) + s[i].1@ == sum_of(s) + x.1@,
    decreases s.len(),
{
    let t = s.update(i, x);
    if i < s.len() - 1 {
        assert(t.drop_last() =~= s.drop_last().update(i, x));
        lemma_sum_update(s.drop_last(), i, x);
    } else {
        assert(t.drop_last() =~= s.drop_last());
    }
}

pub proof fn lemma_sum_remove(s: Seq<(Address, Amount)>, i: int)
    requires
        0 <= i < s.len(),
    ensures
        sum_of(s.remove(i)) + s[i].1@ == sum_of(s),
    decreases s.len(),
{
    if i < s.len() - 1 {
        assert(s.remove(i).drop_last() =~= s.drop_last().remove(i));
        lemma_sum_remove(s.drop_last(), i);
    } else {
        assert(s.remove(i) =~= s.drop_last());
    }
}

/// The map's sum after `insert_of`.
pub proof fn lemma_sum_insert(s: Seq<(Address, Amount)>, k: Address, v: Amount)
    ensures
        sum_of(insert_of(s, k, v)) + (if get_of(s, k) is Some { get_of(s, k).unwrap()@ } else { 0 })
            == sum_of(s) + v@,
{
    lemma_index_of(s, k);
    if index_of(s, k) >= 0 {
        lemma_sum_update(s, index_of(s, k), (k, v));
    } else {
        assert(s.push((k, v)).drop_last() =~= s);
    }
}

/// The map's sum after `remove_of`.
pub proof fn lemma_sum_remove_key(s: Seq<(Address, Amount)>, k: Address)
    ensures
        sum_of(remove_of(s, k)) + (if get_of(s, k) is Some { get_of(s, k).unwrap()@ } else { 0 })
            == sum_of(s),
{
    lemma_index_of(s, k);
    if index_of(s, k) >= 0 {
        lemma_sum_remove(s, index_of(s, k));
    }
}

/// `insert_of` keeps keys unique, maps `k` to `v` and leaves other keys alone.
pub proof fn lemma_insert_get(s: Seq<(Address, Amount)>, k: Address, v: Amount)
    requires
        keys_unique(s),
    ensures
        keys_unique(insert_of(s, k, v)),
        get_of(insert_of(s, k, v), k) == Some(v),
        forall|k2: Address| k2 != k ==> get_of(insert_of(s, k, v), k2) == #[trigger] get_of(s, k2),
{
    lemma_index_of(s, k);
    let t = insert_of(s, k, v);
    assert(keys_unique(t));
    if index_of(s, k) >= 0 {
        lemma_index_of_unique(t, k, index_of(s, k));
    } else {
        lemma_index_of_unique(t, k, s.len() as int);
    }
    assert forall|k2: Address| k2 != k implies get_of(t, k2) == #[trigger] get_of(s, k2) by {
        lemma_index_of(s, k2);
        lemma_index_of(t, k2);
        if index_of(s, k2) >= 0 {
            lemma_index_of_unique(t, k2, index_of(s, k2));
        } else if index_of(t, k2) >= 0 {
            assert(s[index_of(t, k2)].0 == k2);
        }
    }
}

/// `remove_of` keeps keys unique, drops `k` and leaves other keys alone.
pub proof fn lemma_remove_get(s: Seq<(Address, Amount)>, k: Address)
    requires
        keys_unique(s),
    ensures
        keys_unique(remove_of(s, k)),
        get_of(remove_of(s, k), k) is None,
        forall|k2: Address| k2 != k ==> get_of(remove_of(s, k), k2) == #[trigger] get_of(s, k2),
{
    lemma_index_of(s, k);
    let t = remove_of(s, k);
    if index_of(s, k) >= 0 {
        let i = index_of(s, k);
        assert forall|a: int, b: int|
            0 <= a < t.len() && 0 <= b < t.len() && #[trigger] t[a].0 == #[trigger] t[b].0 implies a
            == b by {
            let a2 = if a < i { a } else { a + 1 };
            let b2 = if b < i { b } else { b + 1 };
            assert(t[a] == s[a2] && t[b] == s[b2]);
        }
        lemma_index_of(t, k);
        if index_of(t, k) >= 0 {
            let j = index_of(t, k);
            if j < i {
                assert(t[j] == s[j]);
            } else {
                assert(t[j] == s[j + 1]);
            }
        }
        assert forall|k2: Address| k2 != k implies get_of(t, k2) == #[trigger] get_of(s, k2) by {
            lemma_index_of(s, k2);
            lemma_index_of(t, k2);
            if index_of(s, k2) >= 0 {
                let m = index_of(s, k2);
                if m < i {
                    assert(t[m] == s[m]);
                    lemma_index_of_unique(t, k2, m);
                } else {
                    assert(t[m - 1] == s[m]);
                    lemma_index_of_unique(t, k2, m - 1);
                }
            } else if index_of(t, k2) >= 0 {
                let j = index_of(t, k2);
                if j < i {
                    assert(t[j] == s[j]);
                } else {
                    assert(t[j] == s[j + 1]);
                }
            }
        }
    }
}

/// A prefix sums to no more than the whole.
pub proof fn lemma_sum_of_prefix(s: Seq<(Address, Amount)>, i: int)
    requires
        0 <= i <= s.len(),
    ensures
        sum_of(s.take(i)) <= sum_of(s),
    decreases s.len(),
{
    if i < s.len() {
        lemma_sum_of_prefix(s.drop_last(), i);
        assert(s.drop_last().take(i) =~= s.take(i));
    } else {
        assert(s.take(i) =~= s);
    }
}

/// An ordered map from accounts to amounts.
pub struct AmountMap {
    pub entries: Vec<(Address, Amount)>,
}

impl View for AmountMap {
    type V = Seq<(Address, Amount)>;

    open spec fn view(&self) -> Seq<(Address, Amount)> {
        self.entries@
    }
}

impl AmountMap {
    pub fn new() -> (r: AmountMap)
        ensures
            r@ == Seq::<(Address, Amount)>::empty(),
    {
        AmountMap { entries: Vec::new() }
    }

    pub fn len(&self) -> (r: usize)
        ensures
            r == self@.len(),
    {
        self.entries.len()
    }

    /// The position of the entry under `k`.
    pub fn find(&self, k: &Address) -> (r: Option<usize>)
        requires
            keys_unique(self@),
        ensures
            r is Some <==> index_of(self@, *k) >= 0,
            r matches Some(i) ==> i == index_of(self@, *k) && i < self@.len() && self@[i as int].0 == *k,
    {
        proof {
            lemma_index_of(self@, *k);
        }
        let mut i: usize = 0;
        while i < self.entries.len()
            invariant
                i <= self@.len(),
                keys_unique(self@),
                forall|j: int| 0 <= j < i ==> self@[j].0 != *k,
            decreases self@.len() - i,
        {
            if self.entries[i].0.equals(k) {
                proof {
                    lemma_index_of_unique(self@, *k, i as int);
                }
                return Some(i);
            }
            i = i + 1;
        }
        None
    }

    pub fn get(&self, k: &Address) -> (r: Option<Amount>)
        requires
            keys_unique(self@),
        ensures
            r == get_of(self@, *k),
    {
        match self.find(k) {
            Some(i) => Some(self.entries[i].1),
            None => None,
        }
    }

    pub fn insert(&mut self, k: Address, v: Amount)
        requires
            keys_unique(old(self)@),
        ensures
            final(self)@ == insert_of(old(self)@, k, v),
            keys_unique(final(self)@),
    {
        proof {
            lemma_insert_get(self@, k, v);
        }
        match self.find(&k) {
            Some(i) => {
                self.entries.set(i, (k, v));
            },
            None => {
                self.entries.push((k, v));
            },
        }
    }

    pub fn remove(&mut self, k: &Address)
        requires
            keys_unique(old(self)@),
        ensures
            final(self)@ == remove_of(old(self)@, *k),
            keys_unique(final(self)@),
    {
        proof {
            lemma_remove_get(self@, *k);
        }
        match self.find(k) {
            Some(i) => {
                self.entries.remove(i);
            },
            None => {},
        }
    }

    /// `base` plus every value, cut short at the largest amount.
    pub fn saturating_sum(&self, base: Amount) -> (r: Amount)
        ensures
            r == Amount::from_nat(saturate(base@ + sum_of(self@))),
            r@ == saturate(base@ + sum_of(self@)),
    {
        let mut acc = base;
        let mut i: usize = 0;
        proof {
            assert(self@.take(0) =~= Seq::<(Address, Amount)>::empty());
            assert(base@ < crate::amount::amount_bound()) by {
                crate::amount::lemma_view_bound(base);
            }
        }
        while i < self.entries.len()
            invariant
                i <= self@.len(),
                acc@ == saturate(base@ + sum_of(self@.take(i as int))),
                i == 0 ==> acc == base,
                i > 0 ==> acc == Amount::from_nat(saturate(base@ + sum_of(self@.take(i as int)))),
            decreases self@.len() - i,
        {
            proof {
                assert(self@.take(i + 1).drop_last() =~= self@.take(i as int));
            }
            acc = acc.saturating_add(self.entries[i].1);
            i = i + 1;
        }
        proof {
            assert(self@.take(i as int) =~= self@);
            if i == 0 {
                crate::amount::lemma_from_nat_view(base);
            }
        }
        acc
    }

    /// The sum of the values, or `None` where it does not fit.
    pub fn checked_sum(&self) -> (r: Option<Amount>)
        ensures
            r is Some <==> sum_of(self@) < crate::amount::amount_bound(),
            r matches Some(v) ==> v@ == sum_of(self@) && v == Amount::from_nat(sum_of(self@)),
    {
        let mut acc = Amount::zero();
        let mut i: usize = 0;
        proof {
            assert(self@.take(0) =~= Seq::<(Address, Amount)>::empty());
        }
        while i < self.entries.len()
            invariant
                i <= self@.len(),
                acc@ == sum_of(self@.take(i as int)),
                acc == Amount::from_nat(sum_of(self@.take(i as int))),
            decreases self@.len() - i,
        {
            proof {
                assert(self@.take(i + 1).drop_last() =~= self@.take(i as int));
            }
            acc = match acc.checked_add(self.entries[i].1) {
                Some(x) => x,
                None => {
                    proof {
                        lemma_sum_of_prefix(self@, i + 1);
                    }
                    return None;
                },
            };
            i = i + 1;
        }
        proof {
            assert(self@.take(i as int) =~= self@);
        }
        Some(acc)
    }
}

} // verus!
