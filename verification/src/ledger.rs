use vstd::prelude::*;

use crate::assoc::{assoc_map, distinct_keys, lemma_assoc_dom, lemma_assoc_index, lemma_assoc_update, lemma_distinct_push};
use crate::types::Address;

verus! {

/// The sum of the amounts of a list of pairs.
pub open spec fn amounts_sum(s: Seq<(Address, i128)>) -> int
    decreases s.len(),
{
    if s.len() == 0 {
        0
    } else {
        amounts_sum(s.drop_last()) + s.last().1
    }
}

/// Replacing one amount changes the sum by the difference.
proof fn lemma_amounts_sum_update(s: Seq<(Address, i128)>, i: int, v: i128)
    requires
        0 <= i < s.len(),
    ensures
        amounts_sum(s.update(i, (s[i].0, v))) == amounts_sum(s) - s[i].1 + v,
    decreases s.len(),
{
    let u = s.update(i, (s[i].0, v));
    if i == s.len() - 1 {
        assert(u.drop_last() =~= s.drop_last());
    } else {
        let t = s.drop_last();
        assert(u.drop_last() =~= t.update(i, (t[i].0, v)));
        lemma_amounts_sum_update(t, i, v);
    }
}

/// With no negative amount, one amount and the sum of two distinct entries
/// are at most the sum of all.
proof fn lemma_amounts_sum_bounds(s: Seq<(Address, i128)>, i: int, j: int)
    requires
        forall|k: int| 0 <= k < s.len() ==> #[trigger] s[k].1 >= 0,
        0 <= i < s.len(),
        0 <= j < s.len(),
    ensures
        0 <= s[i].1 <= amounts_sum(s),
        i != j ==> s[i].1 + s[j].1 <= amounts_sum(s),
    decreases s.len(),
{
    let t = s.drop_last();
    lemma_amounts_sum_nonneg(t);
    if i < s.len() - 1 && j < s.len() - 1 {
        assert(t[i] == s[i] && t[j] == s[j]);
        lemma_amounts_sum_bounds(t, i, j);
    } else if i < s.len() - 1 {
        assert(t[i] == s[i]);
        lemma_amounts_sum_bounds(t, i, i);
    } else if j < s.len() - 1 {
        assert(t[j] == s[j]);
        lemma_amounts_sum_bounds(t, j, j);
    }
}

proof fn lemma_amounts_sum_nonneg(s: Seq<(Address, i128)>)
    requires
        forall|k: int| 0 <= k < s.len() ==> #[trigger] s[k].1 >= 0,
    ensures
        amounts_sum(s) >= 0,
    decreases s.len(),
{
    if s.len() > 0 {
        let t = s.drop_last();
        assert forall|k: int| 0 <= k < t.len() implies #[trigger] t[k].1 >= 0 by {
            assert(t[k] == s[k]);
        }
        lemma_amounts_sum_nonneg(t);
        assert(s[s.len() - 1].1 >= 0);
    }
}

/// Signed amounts per address, as stored by a vault for its holders or its
/// assets; an address that was never set holds 0.
pub struct Ledger {
    entries: Vec<(Address, i128)>,
}

impl Ledger {
    /// No address has two entries.
    #[verifier::type_invariant]
    pub closed spec fn keys_distinct(self) -> bool {
        distinct_keys(self.entries@)
    }

    /// The amount that the ledger holds for `k`.
    pub closed spec fn amount(&self, k: Address) -> i128 {
        let m = assoc_map(self.entries@);
        if m.dom().contains(k) {
            m[k]
        } else {
            0
        }
    }

    /// The sum of all amounts in the ledger.
    pub closed spec fn total(&self) -> int {
        amounts_sum(self.entries@)
    }

    /// With no negative amount, the total is non-negative, bounds each
    /// amount, and bounds the amounts of two distinct addresses together.
    pub proof fn lemma_total_bounds(&self, a: Address, b: Address)
        requires
            self.keys_distinct(),
            forall|k: Address| #[trigger] self@[k] >= 0,
        ensures
            0 <= self@[a] <= self.total(),
            a != b ==> self@[a] + self@[b] <= self.total(),
    {
        let s = self.entries@;
        assert forall|k: int| 0 <= k < s.len() implies #[trigger] s[k].1 >= 0 by {
            lemma_assoc_index(s, k);
            assert(self@[s[k].0] == s[k].1);
        }
        lemma_amounts_sum_nonneg(s);
        lemma_assoc_dom(s, a);
        lemma_assoc_dom(s, b);
        if assoc_map(s).dom().contains(a) {
            let i = choose|i: int| 0 <= i < s.len() && s[i].0 == a;
            lemma_assoc_index(s, i);
            lemma_amounts_sum_bounds(s, i, i);
            if assoc_map(s).dom().contains(b) && a != b {
                let j = choose|j: int| 0 <= j < s.len() && s[j].0 == b;
                lemma_assoc_index(s, j);
                lemma_amounts_sum_bounds(s, i, j);
            }
        } else if assoc_map(s).dom().contains(b) {
            let j = choose|j: int| 0 <= j < s.len() && s[j].0 == b;
            lemma_assoc_index(s, j);
            lemma_amounts_sum_bounds(s, j, j);
        }
    }

    /// An empty ledger: every address holds 0.
    pub fn new() -> (ledger: Ledger)
        ensures
            ledger@ == Map::new(|k: Address| true, |k: Address| 0i128),
            ledger.total() == 0,
    {
        let ledger = Ledger { entries: Vec::new() };
        assert(ledger@ =~= Map::new(|k: Address| true, |k: Address| 0i128));
        ledger
    }

    fn position(&self, k: &Address) -> (r: Option<usize>)
        ensures
            match r {
                Some(i) => i < self.entries@.len() && self.entries@[i as int].0 == *k,
                None => forall|i: int| 0 <= i < self.entries@.len() ==> self.entries@[i].0 != *k,
            },
    {
        let n = self.entries.len();
        for i in 0..n
            invariant
                n == self.entries@.len(),
                forall|j: int| 0 <= j < i ==> self.entries@[j].0 != *k,
        {
            if self.entries[i].0 == *k {
                return Some(i);
            }
        }
        None
    }

    /// The amount held for `k`.
    pub fn get(&self, k: &Address) -> (amount: i128)
        ensures
            amount == self@[*k],
    {
        proof {
            use_type_invariant(self);
        }
        match self.position(k) {
            Some(i) => {
                proof {
                    lemma_assoc_index(self.entries@, i as int);
                }
                self.entries[i].1
            },
            None => {
                proof {
                    lemma_assoc_dom(self.entries@, *k);
                }
                0
            },
        }
    }

    /// Sets the amount held for `k` to `amount`.
    pub fn set(&mut self, k: Address, amount: i128)
        ensures
            final(self)@ == old(self)@.insert(k, amount),
            final(self).total() == old(self).total() - old(self)@[k] + amount,
    {
        proof {
            use_type_invariant(&*self);
        }
        let ghost old_entries = self.entries@;
        let found = self.position(&k);
        let mut entries: Vec<(Address, i128)> = Vec::new();
        std::mem::swap(&mut entries, &mut self.entries);
        match found {
            Some(i) => {
                proof {
                    lemma_assoc_index(old_entries, i as int);
                    lemma_assoc_update(old_entries, i as int, amount);
                    lemma_amounts_sum_update(old_entries, i as int, amount);
                }
                entries.set(i, (k, amount));
                assert(entries@ == old_entries.update(i as int, (old_entries[i as int].0, amount)));
            },
            None => {
                proof {
                    lemma_assoc_dom(old_entries, k);
                    lemma_distinct_push(old_entries, (k, amount));
                    assert(old_entries.push((k, amount)).drop_last() =~= old_entries);
                }
                entries.push((k, amount));
            },
        }
        self.entries = entries;
        assert(self@ =~= old(self)@.insert(k, amount));
    }

    /// A separate ledger with the same amounts.
    pub fn snapshot(&self) -> (copy: Ledger)
        ensures
            copy@ == self@,
            copy.total() == self.total(),
    {
        proof {
            use_type_invariant(self);
        }
        let n = self.entries.len();
        let mut entries: Vec<(Address, i128)> = Vec::new();
        for i in 0..n
            invariant
                n == self.entries@.len(),
                entries@ =~= self.entries@.take(i as int),
        {
            entries.push(self.entries[i]);
        }
        assert(entries@ =~= self.entries@);
        let copy = Ledger { entries };
        assert(copy@ =~= self@);
        copy
    }
}

impl View for Ledger {
    type V = Map<Address, i128>;

    /// The amount of every address; 0 for one that was never set.
    closed spec fn view(&self) -> Map<Address, i128> {
        Map::new(|k: Address| true, |k: Address| self.amount(k))
    }
}

} // verus!
