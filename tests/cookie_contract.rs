use cookiechains::account::AccountId;
use cookiechains::cookie::{CallContext, CookieDeleted, CookieRegistered, CookieUpdated, Error, Event};
use cookiechains::migrations::Migrations;
use cookiechains::registry::CookieContract;

fn account(b: u8) -> AccountId {
    AccountId([b; 32])
}

fn ctx(caller: u8, block: u32) -> CallContext {
    CallContext { caller: account(caller), block_number: block }
}

fn s(x: &str) -> String {
    String::from(x)
}

fn register(c: &mut CookieContract, at: &CallContext, key: &str, tag: &str) -> Result<(), Error> {
    c.register_cookie(
        at,
        format!("profile{}", tag),
        s(key),
        s("2024-12-31"),
        format!("name{}", tag),
        format!("secure{}", tag),
        format!("/path{}", tag),
        format!("value{}", tag),
    )
}

#[test]
fn lib_register_cookie_works() {
    let alice = ctx(1, 0);
    let mut contract = CookieContract::new(alice.caller);
    assert_eq!(
        contract.register_cookie(
            &alice,
            String::from("profile1"),
            String::from("cookie1"),
            String::from("2024-12-31"),
            String::from("name1"),
            String::from("secure1"),
            String::from("/path1"),
            String::from("value1"),
        ),
        Ok(())
    );
    assert_eq!(contract.get_cookie_count(), 1);
}

#[test]
fn lib_duplicate_cookie_fails() {
    let alice = ctx(1, 0);
    let mut contract = CookieContract::new(alice.caller);
    let _ = contract.register_cookie(
        &alice,
        String::from("profile1"),
        String::from("cookie1"),
        String::from("2024-12-31"),
        String::from("name1"),
        String::from("secure1"),
        String::from("/path1"),
        String::from("value1"),
    );
    assert_eq!(
        contract.register_cookie(
            &alice,
            String::from("profile2"),
            String::from("cookie1"),
            String::from("2024-12-31"),
            String::from("name2"),
            String::from("secure2"),
            String::from("/path2"),
            String::from("value2"),
        ),
        Err(Error::CookieAlreadyExists)
    );
}

#[test]
fn lib_update_cookie_works() {
    let alice = ctx(1, 0);
    let mut contract = CookieContract::new(alice.caller);
    let _ = contract.register_cookie(
        &alice,
        String::from("profile1"),
        String::from("cookie1"),
        String::from("2024-12-31"),
        String::from("name1"),
        String::from("secure1"),
        String::from("/path1"),
        String::from("value1"),
    );
    assert_eq!(
        contract.update_cookie(
            &alice,
            String::from("profile2"),
            String::from("cookie1"),
            String::from("2025-12-31"),
            String::from("name2"),
            String::from("secure2"),
            String::from("/path2"),
            String::from("value2"),
        ),
        Ok(())
    );
}

#[test]
fn register_then_list_and_count() {
    let u1 = ctx(1, 5);
    let mut c = CookieContract::new(account(9));
    assert_eq!(register(&mut c, &u1, "c1", "1"), Ok(()));
    assert_eq!(c.get_cookie_count(), 1);
    assert_eq!(c.get_all_cookies(), vec![s("c1")]);
    assert_eq!(c.get_owned_cookies(account(1)), vec![s("c1")]);
}

#[test]
fn register_twice_keeps_first_record() {
    let u1 = ctx(1, 5);
    let u2 = ctx(2, 6);
    let mut c = CookieContract::new(account(9));
    assert_eq!(register(&mut c, &u1, "c1", "1"), Ok(()));
    let before = c.get_cookie(s("c1"));
    assert_eq!(register(&mut c, &u2, "c1", "2"), Err(Error::CookieAlreadyExists));
    assert_eq!(c.get_cookie_count(), 1);
    assert_eq!(c.get_cookie(s("c1")), before);
    assert_eq!(c.get_all_cookies(), vec![s("c1")]);
    assert!(c.get_owned_cookies(account(2)).is_empty());
}

#[test]
fn update_by_other_identity_is_refused() {
    let u1 = ctx(1, 5);
    let u2 = ctx(2, 6);
    let mut c = CookieContract::new(account(9));
    register(&mut c, &u1, "c1", "1").unwrap();
    let before = c.get_cookie(s("c1"));
    assert_eq!(
        c.update_cookie(&u2, s("p"), s("c1"), s("e"), s("n"), s("s"), s("/p"), s("v")),
        Err(Error::NotAuthorized)
    );
    assert_eq!(c.get_cookie(s("c1")), before);
}

#[test]
fn update_by_owner_keeps_creation_and_raises_id() {
    let u1 = ctx(1, 5);
    let mut c = CookieContract::new(account(9));
    register(&mut c, &u1, "c1", "1").unwrap();
    let before = c.get_cookie(s("c1")).unwrap();
    let later = ctx(1, 40);
    assert_eq!(
        c.update_cookie(&later, s("profile2"), s("c1"), s("2025-12-31"), s("n2"), s("s2"), s("/path2"), s("v2")),
        Ok(())
    );
    let after = c.get_cookie(s("c1")).unwrap();
    assert_eq!(after.created_at, 5);
    assert_eq!(after.created_at, before.created_at);
    assert_eq!(after.profile, s("profile2"));
    assert_eq!(after.expiration_date, s("2025-12-31"));
    assert_eq!(after.name, s("n2"));
    assert_eq!(after.secure, s("s2"));
    assert_eq!(after.path, s("/path2"));
    assert_eq!(after.value, s("v2"));
    assert!(after.owner == account(1));
    assert_eq!(after.transaction_id, before.transaction_id + 1);
}

#[test]
fn update_of_missing_key_is_not_found() {
    let mut c = CookieContract::new(account(9));
    assert_eq!(
        c.update_cookie(&ctx(1, 1), s("p"), s("nope"), s("e"), s("n"), s("s"), s("/p"), s("v")),
        Err(Error::CookieNotFound)
    );
}

#[test]
fn delete_by_stranger_refused_then_admin_succeeds() {
    let admin = ctx(9, 1);
    let u1 = ctx(1, 2);
    let u2 = ctx(2, 3);
    let mut c = CookieContract::new(admin.caller);
    register(&mut c, &u1, "c1", "1").unwrap();
    assert_eq!(c.delete_cookie(&u2, s("c1")), Err(Error::NotAuthorized));
    assert_eq!(c.get_cookie_count(), 1);
    assert_eq!(c.delete_cookie(&admin, s("c1")), Ok(()));
    assert_eq!(c.get_cookie_count(), 0);
    assert!(c.get_all_cookies().is_empty());
    assert!(!c.get_owned_cookies(account(1)).contains(&s("c1")));
    assert_eq!(c.get_cookie(s("c1")), None);
}

#[test]
fn delete_by_owner_and_missing_key() {
    let u1 = ctx(1, 2);
    let mut c = CookieContract::new(account(9));
    register(&mut c, &u1, "a", "1").unwrap();
    register(&mut c, &u1, "b", "2").unwrap();
    register(&mut c, &u1, "c", "3").unwrap();
    assert_eq!(c.delete_cookie(&u1, s("b")), Ok(()));
    assert_eq!(c.get_all_cookies(), vec![s("a"), s("c")]);
    assert_eq!(c.get_owned_cookies(account(1)), vec![s("a"), s("c")]);
    assert_eq!(c.get_cookie_count(), 2);
    assert_eq!(c.delete_cookie(&u1, s("b")), Err(Error::CookieNotFound));
}

#[test]
fn register_then_get_round_trip() {
    let u1 = ctx(3, 77);
    let mut c = CookieContract::new(account(9));
    register(&mut c, &u1, "k", "x").unwrap();
    let e = c.get_cookie(s("k")).unwrap();
    assert_eq!(e.profile, s("profilex"));
    assert_eq!(e.cookie, s("k"));
    assert_eq!(e.expiration_date, s("2024-12-31"));
    assert_eq!(e.name, s("namex"));
    assert_eq!(e.secure, s("securex"));
    assert_eq!(e.path, s("/pathx"));
    assert_eq!(e.value, s("valuex"));
    assert_eq!(e.created_at, 77);
    assert!(e.owner == account(3));
    assert_eq!(e.transaction_id, 1);
}

#[test]
fn transaction_ids_increase_and_differ() {
    let u1 = ctx(1, 1);
    let u2 = ctx(2, 1);
    let mut c = CookieContract::new(account(9));
    register(&mut c, &u1, "a", "1").unwrap();
    register(&mut c, &u2, "b", "2").unwrap();
    c.update_cookie(&u1, s("p"), s("a"), s("e"), s("n"), s("s"), s("/p"), s("v")).unwrap();
    let a = c.get_cookie(s("a")).unwrap();
    let b = c.get_cookie(s("b")).unwrap();
    assert_eq!(b.transaction_id, 2);
    assert_eq!(a.transaction_id, 3);
    assert_ne!(a.transaction_id, b.transaction_id);
}

#[test]
fn owner_index_follows_owners() {
    let u1 = ctx(1, 1);
    let u2 = ctx(2, 1);
    let mut c = CookieContract::new(account(9));
    register(&mut c, &u1, "a", "1").unwrap();
    register(&mut c, &u2, "b", "2").unwrap();
    register(&mut c, &u1, "c", "3").unwrap();
    assert_eq!(c.get_owned_cookies(account(1)), vec![s("a"), s("c")]);
    assert_eq!(c.get_owned_cookies(account(2)), vec![s("b")]);
    assert!(c.get_owned_cookies(account(7)).is_empty());
    assert_eq!(c.get_all_cookies(), vec![s("a"), s("b"), s("c")]);
    assert_eq!(c.get_cookie_count(), 3);
}

#[test]
fn reads_are_repeatable() {
    let u1 = ctx(1, 1);
    let mut c = CookieContract::new(account(9));
    register(&mut c, &u1, "a", "1").unwrap();
    assert_eq!(c.get_cookie(s("a")), c.get_cookie(s("a")));
    assert_eq!(c.get_all_cookies(), c.get_all_cookies());
    assert_eq!(c.get_owned_cookies(account(1)), c.get_owned_cookies(account(1)));
    assert_eq!(c.get_cookie_count(), c.get_cookie_count());
    assert!(c.get_owner() == c.get_owner());
}

#[test]
fn admin_is_creator() {
    let c = CookieContract::new(account(4));
    assert!(c.get_owner() == account(4));
    assert!(c.get_owner() != account(5));
    assert_eq!(c.get_cookie_count(), 0);
    assert!(c.get_all_cookies().is_empty());
}

#[test]
fn public_key_last_write_wins() {
    let u1 = ctx(1, 1);
    let mut c = CookieContract::new(account(9));
    assert_eq!(c.get_public_key(account(1)), None);
    assert_eq!(c.set_public_key(&u1, s("k1")), Ok(()));
    assert_eq!(c.set_public_key(&u1, s("k2")), Ok(()));
    assert_eq!(c.get_public_key(account(1)), Some(s("k2")));
    assert_eq!(c.get_public_key(account(2)), None);
}

#[test]
fn last_stage_is_per_caller() {
    let u1 = ctx(1, 1);
    let u2 = ctx(2, 1);
    let mut c = CookieContract::new(account(9));
    assert_eq!(c.get_last_stage(&u1), None);
    assert_eq!(c.set_last_stage(&u1, s("profile_stage")), Ok(()));
    assert_eq!(c.get_last_stage(&u1), Some(s("profile_stage")));
    assert_eq!(c.get_last_stage(&u2), None);
}

#[test]
fn events_are_emitted_and_drained() {
    let u1 = ctx(1, 10);
    let admin = ctx(9, 12);
    let mut c = CookieContract::new(admin.caller);
    register(&mut c, &u1, "a", "1").unwrap();
    let _ = register(&mut c, &u1, "a", "1");
    c.update_cookie(&ctx(1, 11), s("p"), s("a"), s("e"), s("n"), s("s"), s("/p"), s("v")).unwrap();
    c.delete_cookie(&admin, s("a")).unwrap();
    let events = c.take_events();
    assert_eq!(
        events,
        vec![
            Event::CookieRegistered(CookieRegistered {
                cookie: s("a"),
                owner: account(1),
                block: 10,
                transaction_id: 1
            }),
            Event::CookieUpdated(CookieUpdated {
                cookie: s("a"),
                owner: account(1),
                block: 11,
                transaction_id: 2
            }),
            Event::CookieDeleted(CookieDeleted {
                cookie: s("a"),
                owner: account(9),
                block: 12,
                transaction_id: 2
            }),
        ]
    );
    assert!(c.take_events().is_empty());
}

#[test]
fn deploy_creates_empty_registry() {
    let mut m = Migrations::new();
    let (c, deployed) = m.deploy_cookie_chain(&ctx(6, 1), account(8));
    assert!(c.get_owner() == account(6));
    assert_eq!(c.get_cookie_count(), 0);
    assert!(deployed.contract_address == account(8));
}

#[test]
fn account_equality_reads_every_byte() {
    let mut b = [1u8; 32];
    b[31] = 2;
    assert!(AccountId([1u8; 32]).same(&AccountId([1u8; 32])));
    assert!(!AccountId([1u8; 32]).same(&AccountId(b)));
}
