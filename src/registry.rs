use vstd::prelude::*;

use crate::account::AccountId;
use crate::account_map::AccountMap;
use crate::cookie::{
    copy_strings, drop_key, not_key, views_of, without_key, BlockNumber, CallContext,
    CookieDeleted, CookieEntry, CookieRegistered, CookieUpdated, Error, Event,
};

verus! {

/// One more than `c`, wrapping to zero past the largest `u64`.
pub open spec fn next_id(c: u64) -> u64 {
    if c == u64::MAX {
        0
    } else {
        (c + 1) as u64
    }
}

/// One more than `c`, wrapping to zero past the largest `u32`.
pub open spec fn count_up(c: u32) -> u32 {
    if c == u32::MAX {
        0
    } else {
        (c + 1) as u32
    }
}

/// One less than `c`, wrapping to the largest `u32` below zero.
pub open spec fn count_down(c: u32) -> u32 {
    if c == 0 {
        u32::MAX
    } else {
        (c - 1) as u32
    }
}

/// The abstract state of a registry.
pub struct RegistryState {
    /// The identity that created the registry.
    pub admin: AccountId,
    /// Number of live records, modulo 2^32.
    pub cookie_count: u32,
    /// The live records, in order of registration.
    pub records: Seq<CookieEntry>,
    /// The live keys, in order of registration.
    pub keys: Seq<Seq<char>>,
    /// For each identity that ever registered, the keys it currently owns.
    pub owned: Map<AccountId, Seq<Seq<char>>>,
    /// The last transaction id handed out.
    pub transaction_id_counter: u64,
    /// Per-identity public key blobs.
    pub public_keys: Map<AccountId, String>,
    /// Per-identity last stage blobs.
    pub last_stages: Map<AccountId, String>,
    /// Notifications emitted and not yet taken by the host.
    pub events: Seq<Event>,
}

impl RegistryState {
    /// `k` is the key of a live record.
    pub open spec fn has_key(self, k: Seq<char>) -> bool {
        exists|i: int| 0 <= i < self.records.len() && #[trigger] self.records[i].cookie@ == k
    }

    /// The position of the live record with key `k`.
    pub open spec fn index_of_key(self, k: Seq<char>) -> int {
        choose|i: int| 0 <= i < self.records.len() && #[trigger] self.records[i].cookie@ == k
    }

    /// The live record with key `k`, if any.
    pub open spec fn entry(self, k: Seq<char>) -> Option<CookieEntry> {
        if self.has_key(k) {
            Some(self.records[self.index_of_key(k)])
        } else {
            None
        }
    }

    /// The public key blob stored for `a`, if any.
    pub open spec fn public_key_of(self, a: AccountId) -> Option<String> {
        if self.public_keys.contains_key(a) {
            Some(self.public_keys[a])
        } else {
            None
        }
    }

    /// The last stage blob stored for `a`, if any.
    pub open spec fn last_stage_of(self, a: AccountId) -> Option<String> {
        if self.last_stages.contains_key(a) {
            Some(self.last_stages[a])
        } else {
            None
        }
    }

    /// The empty state of a registry created by `admin`.
    pub open spec fn initial(admin: AccountId) -> RegistryState {
        RegistryState {
            admin,
            cookie_count: 0,
            records: Seq::empty(),
            keys: Seq::empty(),
            owned: Map::empty(),
            transaction_id_counter: 0,
            public_keys: Map::empty(),
            last_stages: Map::empty(),
            events: Seq::empty(),
        }
    }

    /// The state after the record `e` is registered at block `block`.
    pub open spec fn registered(self, e: CookieEntry, block: BlockNumber) -> RegistryState {
        RegistryState {
            cookie_count: count_up(self.cookie_count),
            records: self.records.push(e),
            keys: self.keys.push(e.cookie@),
            owned: self.owned.insert(e.owner, self.owned_keys(e.owner).push(e.cookie@)),
            transaction_id_counter: e.transaction_id,
            events: self.events.push(
                Event::CookieRegistered(
                    CookieRegistered {
                        cookie: e.cookie,
                        owner: e.owner,
                        block,
                        transaction_id: e.transaction_id,
                    },
                ),
            ),
            ..self
        }
    }

    /// The state after the live record with `e`'s key is replaced by `e` at
    /// block `block`.
    pub open spec fn updated(self, e: CookieEntry, block: BlockNumber) -> RegistryState {
        RegistryState {
            records: self.records.update(self.index_of_key(e.cookie@), e),
            transaction_id_counter: e.transaction_id,
            events: self.events.push(
                Event::CookieUpdated(
                    CookieUpdated {
                        cookie: e.cookie,
                        owner: e.owner,
                        block,
                        transaction_id: e.transaction_id,
                    },
                ),
            ),
            ..self
        }
    }

    /// The state after `by` deletes the live record `k` at block `block`.
    pub open spec fn deleted(self, k: String, by: AccountId, block: BlockNumber) -> RegistryState {
        let i = self.index_of_key(k@);
        let e = self.records[i];
        RegistryState {
            cookie_count: count_down(self.cookie_count),
            records: self.records.remove(i),
            keys: self.keys.remove(i),
            owned: self.owned.insert(e.owner, drop_key(self.owned_keys(e.owner), k@)),
            events: self.events.push(
                Event::CookieDeleted(
                    CookieDeleted { cookie: k, owner: by, block, transaction_id: e.transaction_id },
                ),
            ),
            ..self
        }
    }

    /// The keys that `a` owns; empty where `a` never registered.
    pub open spec fn owned_keys(self, a: AccountId) -> Seq<Seq<char>> {
        if self.owned.contains_key(a) {
            self.owned[a]
        } else {
            Seq::empty()
        }
    }

    /// The record store, the key list, the count and the owner index agree.
    pub open spec fn consistent(self) -> bool {
        &&& self.records.len() == self.keys.len()
        &&& forall|i: int| 0 <= i < self.keys.len() ==> #[trigger] self.keys[i] == self.records[i].cookie@
        &&& forall|i: int, j: int|
            0 <= i < self.records.len() && 0 <= j < self.records.len() && i != j
                ==> #[trigger] self.records[i].cookie@ != #[trigger] self.records[j].cookie@
        &&& self.cookie_count as int == self.records.len() % 0x1_0000_0000
        &&& forall|a: AccountId, k: Seq<char>| #[trigger] self.owned_keys(a).contains(k)
            ==> exists|i: int|
            0 <= i < self.records.len() && #[trigger] self.records[i].cookie@ == k
                && self.records[i].owner == a
        &&& forall|i: int| 0 <= i < self.records.len()
            ==> self.owned_keys(#[trigger] self.records[i].owner).contains(self.records[i].cookie@)
        &&& forall|a: AccountId| #[trigger] self.owned_keys(a).no_duplicates()
    }

    /// Every live record's transaction id was handed out already, and no two
    /// live records share one.
    pub open spec fn ids_fresh(self) -> bool {
        &&& forall|i: int| 0 <= i < self.records.len()
            ==> #[trigger] self.records[i].transaction_id <= self.transaction_id_counter
        &&& forall|i: int, j: int|
            0 <= i < self.records.len() && 0 <= j < self.records.len() && i != j
                ==> #[trigger] self.records[i].transaction_id != #[trigger] self.records[j].transaction_id
    }
}

/// In a consistent state, the record at `i` is the one found under its key.
pub proof fn lemma_entry_at(s: RegistryState, i: int)
    requires
        s.consistent(),
        0 <= i < s.records.len(),
    ensures
        s.has_key(s.records[i].cookie@),
        s.index_of_key(s.records[i].cookie@) == i,
        s.entry(s.records[i].cookie@) == Some(s.records[i]),
{
    let k = s.records[i].cookie@;
    assert(s.has_key(k));
    let j = s.index_of_key(k);
    assert(s.records[j].cookie@ == k);
}

/// Consistency depends on the records, the keys, the owner index and the
/// count alone.
pub proof fn lemma_consistent_frame(a: RegistryState, b: RegistryState)
    requires
        a.consistent(),
        b.records == a.records,
        b.keys == a.keys,
        b.owned == a.owned,
        b.cookie_count == a.cookie_count,
    ensures
        b.consistent(),
{
    assert forall|x: AccountId| #[trigger] b.owned_keys(x) == a.owned_keys(x) by {}
}

/// A registry of cookie records.
pub struct CookieContract {
    owner: AccountId,
    cookie_count: u32,
    cookies: Vec<CookieEntry>,
    cookie_list: Vec<String>,
    owned_cookies: AccountMap<Vec<String>>,
    transaction_id_counter: u64,
    public_keys: AccountMap<String>,
    last_stages: AccountMap<String>,
    events: Vec<Event>,
}

impl View for CookieContract {
    type V = RegistryState;

    closed spec fn view(&self) -> RegistryState {
        RegistryState {
            admin: self.owner,
            cookie_count: self.cookie_count,
            records: self.cookies@,
            keys: views_of(self.cookie_list@),
            owned: self.owned_cookies.view().map_values(|v: Vec<String>| views_of(v@)),
            transaction_id_counter: self.transaction_id_counter,
            public_keys: self.public_keys.view(),
            last_stages: self.last_stages.view(),
            events: self.events@,
        }
    }
}

impl CookieContract {
    /// The tables behind the abstract state are well formed.
    pub closed spec fn tables_wf(&self) -> bool {
        &&& self.owned_cookies.wf()
        &&& self.public_keys.wf()
        &&& self.last_stages.wf()
    }

    /// The registry's invariant.
    pub open spec fn inv(&self) -> bool {
        &&& self.tables_wf()
        &&& self@.consistent()
    }

    /// An empty registry administered by `caller`.
    pub fn new(caller: AccountId) -> (r: CookieContract)
        ensures
            r.inv(),
            r@.ids_fresh(),
            r@ == RegistryState::initial(caller),
    {
        let r = CookieContract {
            owner: caller,
            cookie_count: 0,
            cookies: Vec::new(),
            cookie_list: Vec::new(),
            owned_cookies: AccountMap::new(),
            transaction_id_counter: 0,
            public_keys: AccountMap::new(),
            last_stages: AccountMap::new(),
            events: Vec::new(),
        };
        assert(r@.keys =~= Seq::empty());
        assert(r@.owned =~= Map::empty());
        r
    }

    /// The position of the live record with key `k`, if any.
    fn find_cookie(&self, k: &String) -> (r: Option<usize>)
        requires
            self.inv(),
        ensures
            r.is_none() ==> !self@.has_key(k@),
            r.is_some() ==> r.unwrap() < self@.records.len() && self@.index_of_key(k@)
                == r.unwrap() as int && self@.records[r.unwrap() as int].cookie@ == k@,
    {
        let mut i: usize = 0;
        while i < self.cookies.len()
            invariant
                self.inv(),
                0 <= i <= self@.records.len(),
                forall|j: int| 0 <= j < i ==> #[trigger] self@.records[j].cookie@ != k@,
            decreases self@.records.len() - i,
        {
            if self.cookies[i].cookie == *k {
                proof {
                    lemma_entry_at(self@, i as int);
                }
                return Some(i);
            }
            i = i + 1;
        }
        None
    }
}

/// A key survives `drop_key` exactly when it was there and is not the one dropped.
proof fn lemma_drop_key_contains(s: Seq<Seq<char>>, k: Seq<char>, x: Seq<char>)
    ensures
        drop_key(s, k).contains(x) == (s.contains(x) && x != k),
{
    let p = not_key(k);
    let f = s.filter(p);
    assert(drop_key(s, k) == f);
    if s.contains(x) && x != k {
        let j = choose|j: int| 0 <= j < s.len() && s[j] == x;
        assert(p(s[j]));
        s.lemma_filter_contains(p, j);
        assert(f.contains(x));
    }
    if f.contains(x) {
        let j = choose|j: int| 0 <= j < f.len() && f[j] == x;
        s.lemma_filter_pred(p, j);
        s.lemma_filter_contains_rev(p, x);
        assert(x != k);
        assert(s.contains(x));
    }
}

/// Pushing `x` onto a sequence keeps what it contained and adds `x`.
proof fn lemma_push_contains(s: Seq<Seq<char>>, x: Seq<char>, y: Seq<char>)
    ensures
        s.push(x).contains(y) == (s.contains(y) || y == x),
{
    if s.contains(y) {
        let j = choose|j: int| 0 <= j < s.len() && s[j] == y;
        assert(s.push(x)[j] == y);
    }
    if y == x {
        assert(s.push(x)[s.len() as int] == y);
    }
    if s.push(x).contains(y) && y != x {
        let j = choose|j: int| 0 <= j < s.len() + 1 && s.push(x)[j] == y;
        assert(s[j] == y);
    }
}

/// Pushing a key that is not there keeps a sequence free of duplicates.
proof fn lemma_push_no_dup(s: Seq<Seq<char>>, x: Seq<char>)
    requires
        s.no_duplicates(),
        !s.contains(x),
    ensures
        s.push(x).no_duplicates(),
{
    assert forall|i: int, j: int|
        0 <= i < s.len() + 1 && 0 <= j < s.len() + 1 && i != j implies s.push(x)[i] != s.push(x)[j] by {
        if i == s.len() {
            assert(s[j] != x);
        } else if j == s.len() {
            assert(s[i] != x);
        }
    }
}

/// Filtering keeps a sequence free of duplicates.
proof fn lemma_filter_no_dup(s: Seq<Seq<char>>, p: spec_fn(Seq<char>) -> bool)
    requires
        s.no_duplicates(),
    ensures
        s.filter(p).no_duplicates(),
    decreases s.len(),
{
    reveal(Seq::filter);
    if s.len() > 0 {
        let t = s.drop_last();
        let x = s.last();
        assert(t.no_duplicates()) by {
            assert forall|i: int, j: int|
                0 <= i < t.len() && 0 <= j < t.len() && i != j implies t[i] != t[j] by {
                assert(s[i] != s[j]);
            }
        }
        lemma_filter_no_dup(t, p);
        if p(x) {
            if t.filter(p).contains(x) {
                t.lemma_filter_contains_rev(p, x);
                let j = choose|j: int| 0 <= j < t.len() && t[j] == x;
                assert(s[j] == s[s.len() - 1]);
            }
            lemma_push_no_dup(t.filter(p), x);
        }
    }
}

/// The string views of a list with one more string pushed.
proof fn lemma_views_push(v: Seq<String>, s: String)
    ensures
        views_of(v.push(s)) == views_of(v).push(s@),
{
    assert(views_of(v.push(s)) =~= views_of(v).push(s@));
}

/// Counting one more record keeps the count equal to the length modulo 2^32.
proof fn lemma_count_up(c: u32, n: int)
    requires
        n >= 0,
        c as int == n % 0x1_0000_0000,
    ensures
        count_up(c) as int == (n + 1) % 0x1_0000_0000,
{
}

/// Counting one record less keeps the count equal to the length modulo 2^32.
proof fn lemma_count_down(c: u32, n: int)
    requires
        n >= 1,
        c as int == n % 0x1_0000_0000,
    ensures
        count_down(c) as int == (n - 1) % 0x1_0000_0000,
{
}

impl CookieContract {
    /// Registers a new record under `cookie`, owned by the caller.
    ///
    /// Fails with `CookieAlreadyExists`, changing nothing, where `cookie` is
    /// already live. Otherwise the record gets the next transaction id and the
    /// current block as its creation time, and its key is appended to the key
    /// list and to the caller's owned keys.
    pub fn register_cookie(
        &mut self,
        ctx: &CallContext,
        profile: String,
        cookie: String,
        expiration_date: String,
        name: String,
        secure: String,
        path: String,
        value: String,
    ) -> (r: Result<(), Error>)
        requires
            old(self).inv(),
        ensures
            final(self).inv(),
            old(self)@.has_key(cookie@) ==> r == Err::<(), Error>(Error::CookieAlreadyExists)
                && final(self)@ == old(self)@,
            !old(self)@.has_key(cookie@) ==> r == Ok::<(), Error>(()) && final(self)@
                == old(self)@.registered(
                (CookieEntry {
                    profile,
                    cookie,
                    expiration_date,
                    name,
                    secure,
                    path,
                    value,
                    created_at: ctx.block_number,
                    owner: ctx.caller,
                    transaction_id: next_id(old(self)@.transaction_id_counter),
                }),
                ctx.block_number,
            ),
    {
        let caller = ctx.caller;
        let current_block = ctx.block_number;

        if self.find_cookie(&cookie).is_some() {
            return Err(Error::CookieAlreadyExists);
        }
        let ghost pre = self@;
        let ghost old_list = self.cookie_list@;

        self.transaction_id_counter = self.transaction_id_counter.wrapping_add(1);
        let transaction_id = self.transaction_id_counter;

        let cookie_entry = CookieEntry {
            profile,
            cookie: cookie.clone(),
            expiration_date,
            name,
            secure,
            path,
            value,
            created_at: current_block,
            owner: caller,
            transaction_id,
        };
        self.cookies.push(cookie_entry);
        self.cookie_list.push(cookie.clone());
        self.cookie_count = self.cookie_count.wrapping_add(1);

        let mut owned = match self.owned_cookies.get(&caller) {
            Some(v) => copy_strings(v),
            None => Vec::new(),
        };
        let ghost before_push = owned@;
        owned.push(cookie.clone());
        proof {
            assert(views_of(before_push) =~= pre.owned_keys(caller));
            lemma_views_push(before_push, cookie);
        }
        self.owned_cookies.insert(caller, owned);

        self.events.push(
            Event::CookieRegistered(
                CookieRegistered { cookie, owner: caller, block: current_block, transaction_id },
            ),
        );
        proof {
            let post = self@;
            let n = pre.records.len() as int;
            let k = post.records[n].cookie@;
            lemma_views_push(old_list, post.records[n].cookie);
            assert(post.owned =~= pre.owned.insert(caller, pre.owned_keys(caller).push(k)));
            lemma_count_up(pre.cookie_count, n);
            assert forall|i: int, j: int|
                0 <= i < post.records.len() && 0 <= j < post.records.len() && i != j
                    implies #[trigger] post.records[i].cookie@ != #[trigger] post.records[j].cookie@ by {
                if i == n {
                    assert(pre.records[j].cookie@ != k);
                } else if j == n {
                    assert(pre.records[i].cookie@ != k);
                }
            }
            assert forall|a: AccountId, x: Seq<char>| #[trigger] post.owned_keys(a).contains(x)
                implies exists|i: int|
                0 <= i < post.records.len() && #[trigger] post.records[i].cookie@ == x
                    && post.records[i].owner == a by {
                if a == caller {
                    lemma_push_contains(pre.owned_keys(caller), k, x);
                }
                if a == caller && x == k {
                    assert(post.records[n].cookie@ == x);
                } else {
                    assert(pre.owned_keys(a).contains(x));
                    let i = choose|i: int|
                        0 <= i < pre.records.len() && #[trigger] pre.records[i].cookie@ == x
                            && pre.records[i].owner == a;
                    assert(post.records[i] == pre.records[i]);
                }
            }
            assert forall|a: AccountId| #[trigger] post.owned_keys(a).no_duplicates() by {
                if a == caller {
                    assert(pre.owned_keys(a).no_duplicates());
                    if pre.owned_keys(a).contains(k) {
                        let i = choose|i: int|
                            0 <= i < pre.records.len() && #[trigger] pre.records[i].cookie@ == k
                                && pre.records[i].owner == a;
                        assert(pre.has_key(k));
                    }
                    lemma_push_no_dup(pre.owned_keys(a), k);
                } else {
                    assert(pre.owned_keys(a).no_duplicates());
                }
            }
            assert forall|i: int| 0 <= i < post.records.len() implies post.owned_keys(
                #[trigger] post.records[i].owner,
            ).contains(post.records[i].cookie@) by {
                let o = post.records[i].owner;
                let x = post.records[i].cookie@;
                if o == caller {
                    lemma_push_contains(pre.owned_keys(caller), k, x);
                }
                if i < n {
                    assert(pre.records[i] == post.records[i]);
                    assert(pre.owned_keys(o).contains(x));
                }
            }
        }
        Ok(())
    }
}

impl CookieContract {
    /// Replaces the fields of the live record `cookie`, which the caller owns.
    ///
    /// Fails with `CookieNotFound` where `cookie` is not live, and with
    /// `NotAuthorized` where the caller is not its owner; either way nothing
    /// changes. Otherwise the record gets the next transaction id and keeps its
    /// owner and creation time; the key list, owner index and count stay.
    pub fn update_cookie(
        &mut self,
        ctx: &CallContext,
        profile: String,
        cookie: String,
        expiration_date: String,
        name: String,
        secure: String,
        path: String,
        value: String,
    ) -> (r: Result<(), Error>)
        requires
            old(self).inv(),
        ensures
            final(self).inv(),
            !old(self)@.has_key(cookie@) ==> r == Err::<(), Error>(Error::CookieNotFound)
                && final(self)@ == old(self)@,
            old(self)@.has_key(cookie@) && old(self)@.entry(cookie@).unwrap().owner != ctx.caller
                ==> r == Err::<(), Error>(Error::NotAuthorized) && final(self)@ == old(self)@,
            old(self)@.has_key(cookie@) && old(self)@.entry(cookie@).unwrap().owner == ctx.caller
                ==> r == Ok::<(), Error>(()) && final(self)@ == old(self)@.updated(
                (CookieEntry {
                    profile,
                    cookie,
                    expiration_date,
                    name,
                    secure,
                    path,
                    value,
                    created_at: old(self)@.entry(cookie@).unwrap().created_at,
                    owner: ctx.caller,
                    transaction_id: next_id(old(self)@.transaction_id_counter),
                }),
                ctx.block_number,
            ),
    {
        let caller = ctx.caller;
        let current_block = ctx.block_number;

        let idx = match self.find_cookie(&cookie) {
            Some(i) => i,
            None => {
                return Err(Error::CookieNotFound);
            },
        };
        if !self.cookies[idx].owner.same(&caller) {
            return Err(Error::NotAuthorized);
        }
        let created_at = self.cookies[idx].created_at;
        let ghost pre = self@;

        self.transaction_id_counter = self.transaction_id_counter.wrapping_add(1);
        let transaction_id = self.transaction_id_counter;

        let cookie_entry = CookieEntry {
            profile,
            cookie: cookie.clone(),
            expiration_date,
            name,
            secure,
            path,
            value,
            created_at,
            owner: caller,
            transaction_id,
        };
        self.cookies.set(idx, cookie_entry);

        self.events.push(
            Event::CookieUpdated(
                CookieUpdated { cookie, owner: caller, block: current_block, transaction_id },
            ),
        );
        proof {
            let post = self@;
            assert(post.owned == pre.owned);
            assert forall|a: AccountId| #[trigger] post.owned_keys(a).no_duplicates() by {
                assert(pre.owned_keys(a).no_duplicates());
            }
            assert forall|i: int| 0 <= i < post.records.len() implies #[trigger] post.records[i].cookie@
                == pre.records[i].cookie@ && post.records[i].owner == pre.records[i].owner by {}
            assert forall|a: AccountId, x: Seq<char>| #[trigger] post.owned_keys(a).contains(x)
                implies exists|i: int|
                0 <= i < post.records.len() && #[trigger] post.records[i].cookie@ == x
                    && post.records[i].owner == a by {
                assert(pre.owned_keys(a).contains(x));
                let i = choose|i: int|
                    0 <= i < pre.records.len() && #[trigger] pre.records[i].cookie@ == x
                        && pre.records[i].owner == a;
                assert(post.records[i].cookie@ == x);
            }
            assert forall|i: int| 0 <= i < post.records.len() implies post.owned_keys(
                #[trigger] post.records[i].owner,
            ).contains(post.records[i].cookie@) by {
                assert(pre.owned_keys(pre.records[i].owner).contains(pre.records[i].cookie@));
            }
        }
        Ok(())
    }

    /// Removes the live record `cookie`, where the caller owns it or is the
    /// registry's admin.
    ///
    /// Fails with `CookieNotFound` where `cookie` is not live, and with
    /// `NotAuthorized` where the caller is neither its owner nor the admin;
    /// either way nothing changes. Otherwise the record leaves the store, the
    /// key list and its owner's keys, and the count goes down by one.
    pub fn delete_cookie(&mut self, ctx: &CallContext, cookie: String) -> (r: Result<(), Error>)
        requires
            old(self).inv(),
        ensures
            final(self).inv(),
            !old(self)@.has_key(cookie@) ==> r == Err::<(), Error>(Error::CookieNotFound)
                && final(self)@ == old(self)@,
            old(self)@.has_key(cookie@) && old(self)@.entry(cookie@).unwrap().owner != ctx.caller
                && old(self)@.admin != ctx.caller ==> r == Err::<(), Error>(Error::NotAuthorized)
                && final(self)@ == old(self)@,
            old(self)@.has_key(cookie@) && (old(self)@.entry(cookie@).unwrap().owner == ctx.caller
                || old(self)@.admin == ctx.caller) ==> r == Ok::<(), Error>(()) && final(self)@
                == old(self)@.deleted(cookie, ctx.caller, ctx.block_number),
    {
        let caller = ctx.caller;
        let current_block = ctx.block_number;

        let idx = match self.find_cookie(&cookie) {
            Some(i) => i,
            None => {
                return Err(Error::CookieNotFound);
            },
        };
        let entry_owner = self.cookies[idx].owner;
        let last_transaction_id = self.cookies[idx].transaction_id;
        if !entry_owner.same(&caller) && !caller.same(&self.owner) {
            return Err(Error::NotAuthorized);
        }
        let ghost pre = self@;
        let ghost old_list = self.cookie_list@;
        proof {
            assert(pre.owned_keys(entry_owner).contains(cookie@));
        }

        self.cookies.remove(idx);
        let _removed = self.cookie_list.remove(idx);
        self.cookie_count = self.cookie_count.wrapping_sub(1);

        let kept = match self.owned_cookies.get(&entry_owner) {
            Some(list) => Some(without_key(list, &cookie)),
            None => None,
        };
        if let Some(list) = kept {
            self.owned_cookies.insert(entry_owner, list);
        }

        self.events.push(
            Event::CookieDeleted(
                CookieDeleted {
                    cookie,
                    owner: caller,
                    block: current_block,
                    transaction_id: last_transaction_id,
                },
            ),
        );
        proof {
            let post = self@;
            let i0 = idx as int;
            let k = pre.records[i0].cookie@;
            let o = entry_owner;
            assert(views_of(old_list.remove(i0)) =~= pre.keys.remove(i0));
            assert(post.owned =~= pre.owned.insert(o, drop_key(pre.owned_keys(o), k)));
            lemma_count_down(pre.cookie_count, pre.records.len() as int);
            assert forall|i: int, j: int|
                0 <= i < post.records.len() && 0 <= j < post.records.len() && i != j
                    implies #[trigger] post.records[i].cookie@ != #[trigger] post.records[j].cookie@ by {
                let pi = if i < i0 { i } else { i + 1 };
                let pj = if j < i0 { j } else { j + 1 };
                assert(pre.records[pi].cookie@ != pre.records[pj].cookie@);
            }
            assert forall|a: AccountId, x: Seq<char>| #[trigger] post.owned_keys(a).contains(x)
                implies exists|i: int|
                0 <= i < post.records.len() && #[trigger] post.records[i].cookie@ == x
                    && post.records[i].owner == a by {
                if a == o {
                    lemma_drop_key_contains(pre.owned_keys(o), k, x);
                }
                assert(pre.owned_keys(a).contains(x));
                let m = choose|m: int|
                    0 <= m < pre.records.len() && #[trigger] pre.records[m].cookie@ == x
                        && pre.records[m].owner == a;
                assert(m != i0);
                let w = if m < i0 { m } else { m - 1 };
                assert(post.records[w] == pre.records[m]);
                assert(0 <= w < post.records.len() && post.records[w].cookie@ == x
                    && post.records[w].owner == a);
            }
            assert forall|a: AccountId| #[trigger] post.owned_keys(a).no_duplicates() by {
                assert(pre.owned_keys(a).no_duplicates());
                if a == o {
                    lemma_filter_no_dup(pre.owned_keys(o), not_key(k));
                }
            }
            assert forall|i: int| 0 <= i < post.records.len() implies post.owned_keys(
                #[trigger] post.records[i].owner,
            ).contains(post.records[i].cookie@) by {
                let m = if i < i0 { i } else { i + 1 };
                assert(post.records[i] == pre.records[m]);
                let x = pre.records[m].cookie@;
                assert(pre.owned_keys(pre.records[m].owner).contains(x));
                if pre.records[m].owner == o {
                    assert(x != k);
                    lemma_drop_key_contains(pre.owned_keys(o), k, x);
                }
            }
        }
        Ok(())
    }
}

impl CookieContract {
    /// The live record stored under `cookie`, or `None`.
    pub fn get_cookie(&self, cookie: String) -> (r: Option<CookieEntry>)
        requires
            self.inv(),
        ensures
            r == self@.entry(cookie@),
    {
        match self.find_cookie(&cookie) {
            Some(i) => Some(self.cookies[i].duplicate()),
            None => None,
        }
    }

    /// All live keys, in order of registration.
    pub fn get_all_cookies(&self) -> (r: Vec<String>)
        ensures
            views_of(r@) == self@.keys,
    {
        copy_strings(&self.cookie_list)
    }

    /// The keys that `account` owns; empty where it owns none.
    pub fn get_owned_cookies(&self, account: AccountId) -> (r: Vec<String>)
        requires
            self.inv(),
        ensures
            views_of(r@) == self@.owned_keys(account),
    {
        match self.owned_cookies.get(&account) {
            Some(list) => copy_strings(list),
            None => {
                let r: Vec<String> = Vec::new();
                assert(views_of(r@) =~= Seq::<Seq<char>>::empty());
                r
            },
        }
    }

    /// The number of live records, modulo 2^32.
    pub fn get_cookie_count(&self) -> (r: u32)
        ensures
            r == self@.cookie_count,
    {
        self.cookie_count
    }

    /// The identity that created the registry.
    pub fn get_owner(&self) -> (r: AccountId)
        ensures
            r == self@.admin,
    {
        self.owner
    }

    /// Stores `public_key` as the caller's public key, replacing any earlier one.
    pub fn set_public_key(&mut self, ctx: &CallContext, public_key: String) -> (r: Result<(), Error>)
        requires
            old(self).inv(),
        ensures
            final(self).inv(),
            r == Ok::<(), Error>(()),
            final(self)@ == (RegistryState {
                public_keys: old(self)@.public_keys.insert(ctx.caller, public_key),
                ..old(self)@
            }),
    {
        let ghost pre = self@;
        self.public_keys.insert(ctx.caller, public_key);
        proof {
            lemma_consistent_frame(pre, self@);
        }
        Ok(())
    }

    /// The public key that `account` stored, or `None`.
    pub fn get_public_key(&self, account: AccountId) -> (r: Option<String>)
        requires
            self.inv(),
        ensures
            r == self@.public_key_of(account),
    {
        match self.public_keys.get(&account) {
            Some(v) => Some(v.clone()),
            None => None,
        }
    }

    /// Stores `stage` as the caller's last stage, replacing any earlier one.
    pub fn set_last_stage(&mut self, ctx: &CallContext, stage: String) -> (r: Result<(), Error>)
        requires
            old(self).inv(),
        ensures
            final(self).inv(),
            r == Ok::<(), Error>(()),
            final(self)@ == (RegistryState {
                last_stages: old(self)@.last_stages.insert(ctx.caller, stage),
                ..old(self)@
            }),
    {
        let ghost pre = self@;
        self.last_stages.insert(ctx.caller, stage);
        proof {
            lemma_consistent_frame(pre, self@);
        }
        Ok(())
    }

    /// The last stage that the caller stored, or `None`.
    pub fn get_last_stage(&self, ctx: &CallContext) -> (r: Option<String>)
        requires
            self.inv(),
        ensures
            r == self@.last_stage_of(ctx.caller),
    {
        match self.last_stages.get(&ctx.caller) {
            Some(v) => Some(v.clone()),
            None => None,
        }
    }

    /// Hands the notifications emitted so far to the host and clears them.
    pub fn take_events(&mut self) -> (r: Vec<Event>)
        requires
            old(self).inv(),
        ensures
            final(self).inv(),
            r@ == old(self)@.events,
            final(self)@ == (RegistryState { events: Seq::empty(), ..old(self)@ }),
    {
        let mut taken: Vec<Event> = Vec::new();
        let ghost pre = self@;
        std::mem::swap(&mut taken, &mut self.events);
        proof {
            lemma_consistent_frame(pre, self@);
        }
        taken
    }
}

} // verus!
