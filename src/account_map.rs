use vstd::prelude::*;

use crate::account::AccountId;

verus! {

/// A finite map from account identities to values, kept as two parallel
/// vectors with no account listed twice.
pub struct AccountMap<V> {
    accounts: Vec<AccountId>,
    values: Vec<V>,
}

/// In a sequence without duplicates, the element at `i` is found at `i`.
proof fn lemma_index_of_unique(s: Seq<AccountId>, i: int)
    requires
        s.no_duplicates(),
        0 <= i < s.len(),
    ensures
        s.index_of(s[i]) == i,
{
    assert(s.contains(s[i]));
}

impl<V> AccountMap<V> {
    /// The table is well formed: one value per account, no account twice.
    pub closed spec fn wf(&self) -> bool {
        &&& self.accounts@.len() == self.values@.len()
        &&& self.accounts@.no_duplicates()
    }

    /// The map that the table stands for.
    pub closed spec fn view(&self) -> Map<AccountId, V> {
        Map::new(
            |a: AccountId| self.accounts@.contains(a),
            |a: AccountId| self.values@[self.accounts@.index_of(a)],
        )
    }

    /// An empty table.
    pub fn new() -> (r: Self)
        ensures
            r.wf(),
            r.view() == Map::<AccountId, V>::empty(),
    {
        let r = AccountMap { accounts: Vec::new(), values: Vec::new() };
        assert(r.view() =~= Map::<AccountId, V>::empty());
        r
    }

    /// The position of `a` in the table, if it is there.
    fn position(&self, a: &AccountId) -> (r: Option<usize>)
        requires
            self.wf(),
        ensures
            r.is_none() ==> !self.accounts@.contains(*a),
            r.is_some() ==> r.unwrap() < self.accounts@.len() && self.accounts@[r.unwrap() as int]
                == *a,
    {
        let mut i: usize = 0;
        while i < self.accounts.len()
            invariant
                self.wf(),
                0 <= i <= self.accounts@.len(),
                forall|j: int| 0 <= j < i ==> self.accounts@[j] != *a,
            decreases self.accounts@.len() - i,
        {
            if self.accounts[i].same(a) {
                return Some(i);
            }
            i = i + 1;
        }
        None
    }

    /// The value held for `a`, or `None` where `a` has none.
    pub fn get(&self, a: &AccountId) -> (r: Option<&V>)
        requires
            self.wf(),
        ensures
            r.is_some() == self.view().contains_key(*a),
            r.is_some() ==> *r.unwrap() == self.view()[*a],
    {
        match self.position(a) {
            Some(i) => {
                proof {
                    lemma_index_of_unique(self.accounts@, i as int);
                }
                Some(&self.values[i])
            },
            None => None,
        }
    }

    /// Sets the value of `a` to `v`, replacing any earlier one.
    pub fn insert(&mut self, a: AccountId, v: V)
        requires
            old(self).wf(),
        ensures
            final(self).wf(),
            final(self).view() == old(self).view().insert(a, v),
    {
        let ghost pre = self.view();
        match self.position(&a) {
            Some(i) => {
                self.values.set(i, v);
                proof {
                    lemma_index_of_unique(self.accounts@, i as int);
                    assert forall|b: AccountId| #[trigger] self.accounts@.contains(b) implies
                        self.view()[b] == pre.insert(a, v)[b] by {
                        let j = choose|j: int| 0 <= j < self.accounts@.len() && self.accounts@[j] == b;
                        lemma_index_of_unique(self.accounts@, j);
                    }
                    assert(self.view() =~= pre.insert(a, v));
                }
            },
            None => {
                let ghost old_accounts = self.accounts@;
                self.accounts.push(a);
                self.values.push(v);
                proof {
                    let n = old_accounts.len() as int;
                    assert(self.accounts@.no_duplicates()) by {
                        assert forall|i: int, j: int|
                            0 <= i < self.accounts@.len() && 0 <= j < self.accounts@.len() && i
                                != j implies self.accounts@[i] != self.accounts@[j] by {
                            if i < n && j < n {
                                assert(old_accounts[i] != old_accounts[j]);
                            } else if i < n {
                                assert(old_accounts.contains(old_accounts[i]));
                            } else if j < n {
                                assert(old_accounts.contains(old_accounts[j]));
                            }
                        }
                    }
                    lemma_index_of_unique(self.accounts@, n);
                    assert forall|b: AccountId| #[trigger] self.accounts@.contains(b) implies
                        self.view()[b] == pre.insert(a, v)[b] by {
                        let j = choose|j: int| 0 <= j < self.accounts@.len() && self.accounts@[j] == b;
                        lemma_index_of_unique(self.accounts@, j);
                        if j < n {
                            assert(old_accounts[j] == b);
                            lemma_index_of_unique(old_accounts, j);
                        }
                    }
                    assert forall|b: AccountId| #[trigger] pre.insert(a, v).contains_key(b) implies
                        self.accounts@.contains(b) by {
                        if b != a {
                            let j = choose|j: int| 0 <= j < old_accounts.len() && old_accounts[j] == b;
                            assert(self.accounts@[j] == b);
                        }
                    }
                    assert(self.view() =~= pre.insert(a, v));
                }
            },
        }
    }
}

} // verus!
