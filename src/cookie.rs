use vstd::prelude::*;

use crate::account::AccountId;

verus! {

/// The host's block height, recorded when a record is created.
pub type BlockNumber = u32;

/// What the host tells an operation about the call it serves.
#[derive(Clone, Copy, Debug)]
pub struct CallContext {
    /// The identity that invoked the operation.
    pub caller: AccountId,
    /// The current block height.
    pub block_number: BlockNumber,
}

/// Why an operation was refused.
#[derive(Clone, Debug, PartialEq, Eq)]
pub enum Error {
    /// Registration of a key that is already live.
    CookieAlreadyExists,
    /// Update or deletion of a key that is not live.
    CookieNotFound,
    /// The caller is neither the record's owner nor, for deletion, the admin.
    NotAuthorized,
    /// Reserved for malformed auxiliary key material; no operation returns it.
    InvalidKey,
    /// Reserved for a failure reported by the host environment.
    InkEnvError(String),
}

/// One stored cookie record.
#[derive(Clone, Debug, PartialEq, Eq)]
pub struct CookieEntry {
    pub profile: String,
    /// The key the record is stored under.
    pub cookie: String,
    pub expiration_date: String,
    pub name: String,
    pub secure: String,
    pub path: String,
    pub value: String,
    /// Block height at registration; never changed by an update.
    pub created_at: BlockNumber,
    /// The registering identity; never changed by an update.
    pub owner: AccountId,
    /// Transaction id of the record's most recent write.
    pub transaction_id: u64,
}

impl CookieEntry {
    /// A field-by-field copy of the record.
    pub fn duplicate(&self) -> (r: CookieEntry)
        ensures
            r == *self,
    {
        CookieEntry {
            profile: self.profile.clone(),
            cookie: self.cookie.clone(),
            expiration_date: self.expiration_date.clone(),
            name: self.name.clone(),
            secure: self.secure.clone(),
            path: self.path.clone(),
            value: self.value.clone(),
            created_at: self.created_at,
            owner: self.owner,
            transaction_id: self.transaction_id,
        }
    }
}

/// Notification that a record was registered.
#[derive(Clone, Debug, PartialEq, Eq)]
pub struct CookieRegistered {
    pub cookie: String,
    pub owner: AccountId,
    pub block: BlockNumber,
    pub transaction_id: u64,
}

/// Notification that a record was updated.
#[derive(Clone, Debug, PartialEq, Eq)]
pub struct CookieUpdated {
    pub cookie: String,
    pub owner: AccountId,
    pub block: BlockNumber,
    pub transaction_id: u64,
}

/// Notification that a record was deleted; `owner` is the identity that
/// deleted it and `transaction_id` the record's last one.
#[derive(Clone, Debug, PartialEq, Eq)]
pub struct CookieDeleted {
    pub cookie: String,
    pub owner: AccountId,
    pub block: BlockNumber,
    pub transaction_id: u64,
}

/// A notification for observers, emitted by a successful write.
#[derive(Clone, Debug, PartialEq, Eq)]
pub enum Event {
    CookieRegistered(CookieRegistered),
    CookieUpdated(CookieUpdated),
    CookieDeleted(CookieDeleted),
}

/// The key views of a sequence of strings.
pub open spec fn views_of(strs: Seq<String>) -> Seq<Seq<char>> {
    strs.map_values(|s: String| s@)
}

/// The test "is not `k`" on keys.
pub open spec fn not_key(k: Seq<char>) -> spec_fn(Seq<char>) -> bool {
    |x: Seq<char>| x != k
}

/// The keys of `s` other than `k`, in order.
pub open spec fn drop_key(s: Seq<Seq<char>>, k: Seq<char>) -> Seq<Seq<char>> {
    s.filter(not_key(k))
}

/// A copy of a list of strings.
pub fn copy_strings(v: &Vec<String>) -> (r: Vec<String>)
    ensures
        r@ == v@,
{
    let mut r: Vec<String> = Vec::new();
    let mut i: usize = 0;
    while i < v.len()
        invariant
            0 <= i <= v@.len(),
            r@ == v@.subrange(0, i as int),
        decreases v@.len() - i,
    {
        r.push(v[i].clone());
        assert(r@ =~= v@.subrange(0, i + 1));
        i = i + 1;
    }
    assert(r@ =~= v@);
    r
}

/// The list `v` without the strings that read as `k`, in order.
pub fn without_key(v: &Vec<String>, k: &String) -> (r: Vec<String>)
    ensures
        views_of(r@) == drop_key(views_of(v@), k@),
{
    let ghost p = not_key(k@);
    let mut r: Vec<String> = Vec::new();
    let mut i: usize = 0;
    while i < v.len()
        invariant
            0 <= i <= v@.len(),
            p == not_key(k@),
            views_of(r@) == views_of(v@.subrange(0, i as int)).filter(p),
        decreases v@.len() - i,
    {
        proof {
            reveal(Seq::filter);
            let s = views_of(v@.subrange(0, i + 1));
            assert(s.drop_last() =~= views_of(v@.subrange(0, i as int)));
            assert(s.last() == v@[i as int]@);
        }
        if v[i] != *k {
            r.push(v[i].clone());
            assert(views_of(r@) =~= views_of(v@.subrange(0, i as int)).filter(p).push(v@[i as int]@));
        }
        i = i + 1;
    }
    assert(v@.subrange(0, v@.len() as int) =~= v@);
    r
}

} // verus!
