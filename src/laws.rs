use vstd::prelude::*;

use crate::account::AccountId;
use crate::cookie::{BlockNumber, CookieEntry};
use crate::registry::{lemma_entry_at, next_id, RegistryState};

verus! {

/// No two live records share a key: the key list has no duplicates.
pub proof fn law_keys_unique(s: RegistryState)
    requires
        s.consistent(),
    ensures
        s.keys.no_duplicates(),
{
}

/// The count equals the number of live keys and of live records (modulo
/// 2^32, exactly below it); a key is owned by some identity exactly when it is
/// in the key list, the only identity whose keys hold it is the owner of its
/// record, and no identity's keys hold a key twice.
pub proof fn law_index_consistency(s: RegistryState, k: Seq<char>, a: AccountId)
    requires
        s.consistent(),
    ensures
        s.keys.len() == s.records.len(),
        s.cookie_count as int == s.keys.len() % 0x1_0000_0000,
        s.keys.len() < 0x1_0000_0000 ==> s.cookie_count as int == s.keys.len(),
        (exists|b: AccountId| #[trigger] s.owned_keys(b).contains(k)) == s.keys.contains(k),
        s.owned_keys(a).contains(k) ==> s.has_key(k) && s.entry(k).unwrap().owner == a,
        s.owned_keys(a).no_duplicates(),
{
    if s.owned_keys(a).contains(k) {
        let i = choose|i: int|
            0 <= i < s.records.len() && #[trigger] s.records[i].cookie@ == k && s.records[i].owner
                == a;
        lemma_entry_at(s, i);
    }
    if exists|b: AccountId| #[trigger] s.owned_keys(b).contains(k) {
        let b = choose|b: AccountId| #[trigger] s.owned_keys(b).contains(k);
        let i = choose|i: int|
            0 <= i < s.records.len() && #[trigger] s.records[i].cookie@ == k && s.records[i].owner
                == b;
        assert(s.keys[i] == k);
    }
    if s.keys.contains(k) {
        let i = choose|i: int| 0 <= i < s.keys.len() && s.keys[i] == k;
        assert(s.owned_keys(s.records[i].owner).contains(k));
    }
}

/// Registering a record and then reading its key gives the record back, with
/// the fields and owner it was registered with.
pub proof fn law_register_then_get(s: RegistryState, e: CookieEntry, block: BlockNumber)
    requires
        s.consistent(),
        !s.has_key(e.cookie@),
    ensures
        s.registered(e, block).entry(e.cookie@) == Some(e),
{
    let t = s.registered(e, block);
    let n = s.records.len() as int;
    assert(t.records[n] == e);
    assert forall|i: int, j: int|
        0 <= i < t.records.len() && 0 <= j < t.records.len() && i != j implies #[trigger] t.records[i].cookie@
        != #[trigger] t.records[j].cookie@ by {
        if i == n {
            assert(s.records[j].cookie@ != e.cookie@);
        } else if j == n {
            assert(s.records[i].cookie@ != e.cookie@);
        }
    }
    assert(t.has_key(e.cookie@));
    let m = t.index_of_key(e.cookie@);
    assert(m == n);
}

/// A registration with the next transaction id hands out an id above every
/// live record's and keeps the live ids distinct and handed out.
pub proof fn law_register_ids(s: RegistryState, e: CookieEntry, block: BlockNumber)
    requires
        s.ids_fresh(),
        s.transaction_id_counter < u64::MAX,
        e.transaction_id == next_id(s.transaction_id_counter),
    ensures
        forall|i: int| 0 <= i < s.records.len() ==> #[trigger] s.records[i].transaction_id
            < e.transaction_id,
        s.registered(e, block).ids_fresh(),
{
}

/// An update with the next transaction id raises the record's id, and keeps
/// the live ids distinct and handed out.
pub proof fn law_update_ids(s: RegistryState, e: CookieEntry, block: BlockNumber)
    requires
        s.consistent(),
        s.ids_fresh(),
        s.has_key(e.cookie@),
        s.transaction_id_counter < u64::MAX,
        e.transaction_id == next_id(s.transaction_id_counter),
    ensures
        s.entry(e.cookie@).unwrap().transaction_id < e.transaction_id,
        s.updated(e, block).ids_fresh(),
{
    let i = s.index_of_key(e.cookie@);
    let t = s.updated(e, block);
    assert forall|a: int, b: int|
        0 <= a < t.records.len() && 0 <= b < t.records.len() && a != b implies #[trigger] t.records[a].transaction_id
        != #[trigger] t.records[b].transaction_id by {
        if a != i && b != i {
            assert(s.records[a].transaction_id != s.records[b].transaction_id);
        } else if a == i {
            assert(s.records[b].transaction_id <= s.transaction_id_counter);
        } else {
            assert(s.records[a].transaction_id <= s.transaction_id_counter);
        }
    }
}

/// A deletion keeps the remaining ids distinct and handed out.
pub proof fn law_delete_ids(s: RegistryState, k: String, by: AccountId, block: BlockNumber)
    requires
        s.ids_fresh(),
        s.has_key(k@),
    ensures
        s.deleted(k, by, block).ids_fresh(),
{
    let i = s.index_of_key(k@);
    let t = s.deleted(k, by, block);
    assert forall|a: int, b: int|
        0 <= a < t.records.len() && 0 <= b < t.records.len() && a != b implies #[trigger] t.records[a].transaction_id
        != #[trigger] t.records[b].transaction_id by {
        let pa = if a < i { a } else { a + 1 };
        let pb = if b < i { b } else { b + 1 };
        assert(s.records[pa].transaction_id != s.records[pb].transaction_id);
    }
    assert forall|a: int| 0 <= a < t.records.len() implies #[trigger] t.records[a].transaction_id
        <= t.transaction_id_counter by {
        let pa = if a < i { a } else { a + 1 };
        assert(t.records[a] == s.records[pa]);
    }
}

} // verus!
