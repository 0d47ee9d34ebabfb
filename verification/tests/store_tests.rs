use record_store::acl::Authz;
use record_store::store::Store;
use record_store::store::StoreError;

fn seeded_store() -> Store {
    let mut st = Store::new();
    let r = st.create(
        Some("alice"),
        "k",
        "1".to_owned(),
        vec![0, 0, 0, 42],
        Authz::new("", false),
    );
    assert_eq!(r, Ok(()));
    st
}

#[test]
fn create_requires_a_principal() {
    let mut st = Store::new();
    let r = st.create(None, "k", "1".to_owned(), vec![1], Authz::new("", false));
    assert_eq!(r, Err(StoreError::Unauthenticated));
}

#[test]
fn create_twice_is_already_exists() {
    let mut st = seeded_store();
    let again = st.create(
        Some("alice"),
        "k",
        "1".to_owned(),
        vec![0, 0, 0, 42],
        Authz::new("", false),
    );
    assert_eq!(again, Err(StoreError::AlreadyExists));
    let other_payload = st.create(
        Some("bob"),
        "k",
        "2".to_owned(),
        vec![9, 9],
        Authz::new("", true),
    );
    assert_eq!(other_payload, Err(StoreError::AlreadyExists));
}

#[test]
fn create_sets_the_caller_as_owner() {
    let mut st = Store::new();
    // the supplied ACL claims another owner; the store replaces it
    let r = st.create(
        Some("alice"),
        "k",
        "1".to_owned(),
        vec![1, 2, 3, 4],
        Authz::new("mallory", false),
    );
    assert_eq!(r, Ok(()));
    let out = st.read(Some("alice"), "k").unwrap().unwrap();
    assert!(out.authz.is_owner("alice"));
    assert!(!out.authz.is_owner("mallory"));
}

#[test]
fn unauthenticated_read_is_rejected_even_for_public_records() {
    let mut st = Store::new();
    let r = st.create(
        Some("alice"),
        "k",
        "1".to_owned(),
        vec![0, 0, 0, 1],
        Authz::new("", true),
    );
    assert_eq!(r, Ok(()));
    let g = st.read(None, "k");
    assert_eq!(g, Err(StoreError::Unauthenticated));
}

#[test]
fn read_of_an_absent_key_is_empty_not_an_error() {
    let st = seeded_store();
    let g = st.read(Some("alice"), "missing").unwrap();
    assert!(g.is_none());
}

#[test]
fn read_returns_the_stored_record() {
    let st = seeded_store();
    let out = st.read(Some("alice"), "k").unwrap().unwrap();
    assert_eq!(out.key, "k");
    assert_eq!(out.version, "1");
    assert_eq!(out.data, vec![0, 0, 0, 42]);
    assert!(out.authz.is_owner("alice"));
}

#[test]
fn read_by_a_stranger_is_forbidden() {
    let st = seeded_store();
    let g = st.read(Some("bob"), "k");
    assert_eq!(g, Err(StoreError::Forbidden));
}

#[test]
fn read_by_a_granted_reader_succeeds() {
    let mut st = seeded_store();
    let r = st.update_acl(Some("alice"), "k", Authz::new("alice", false).update("bob", true));
    assert_eq!(r, Ok(()));
    let out = st.read(Some("bob"), "k").unwrap().unwrap();
    assert_eq!(out.data, vec![0, 0, 0, 42]);
}

#[test]
fn public_read_admits_any_principal() {
    let mut st = seeded_store();
    let r = st.update_acl(Some("alice"), "k", Authz::new("alice", true));
    assert_eq!(r, Ok(()));
    let out = st.read(Some("carol"), "k").unwrap().unwrap();
    assert_eq!(out.data, vec![0, 0, 0, 42]);
}

#[test]
fn update_payload_by_a_non_owner_is_forbidden() {
    let mut st = seeded_store();
    let r = st.update_payload(Some("bob"), "k", "1".to_owned(), vec![9]);
    assert_eq!(r, Err(StoreError::Forbidden));
    // the record is untouched
    let out = st.read(Some("alice"), "k").unwrap().unwrap();
    assert_eq!(out.data, vec![0, 0, 0, 42]);
}

#[test]
fn update_payload_by_the_owner_succeeds() {
    let mut st = seeded_store();
    let r = st.update_payload(Some("alice"), "k", "1".to_owned(), vec![0, 0, 0, 7]);
    assert_eq!(r, Ok(()));
    let out = st.read(Some("alice"), "k").unwrap().unwrap();
    assert_eq!(out.data, vec![0, 0, 0, 7]);
    assert_eq!(out.version, "1");
}

#[test]
fn update_payload_leaves_the_acl_untouched() {
    let mut st = Store::new();
    let r = st.create(
        Some("alice"),
        "k",
        "1".to_owned(),
        vec![0, 0, 0, 1],
        Authz::new("", false).update("bob", true),
    );
    assert_eq!(r, Ok(()));
    let r = st.update_payload(Some("alice"), "k", "1".to_owned(), vec![0, 0, 0, 2]);
    assert_eq!(r, Ok(()));
    let out = st.read(Some("bob"), "k").unwrap().unwrap();
    assert_eq!(out.data, vec![0, 0, 0, 2]);
}

#[test]
fn update_payload_of_an_absent_key_is_not_found() {
    let mut st = Store::new();
    let r = st.update_payload(Some("alice"), "k", "1".to_owned(), vec![1]);
    assert_eq!(r, Err(StoreError::NotFound));
}

#[test]
fn update_payload_without_a_principal_is_unauthenticated() {
    let mut st = seeded_store();
    let r = st.update_payload(None, "k", "1".to_owned(), vec![1]);
    assert_eq!(r, Err(StoreError::Unauthenticated));
}

#[test]
fn update_acl_replaces_the_whole_list() {
    let mut st = seeded_store();
    let r = st.update_acl(Some("alice"), "k", Authz::new("alice", true).update("bob", true));
    assert_eq!(r, Ok(()));
    let out = st.read(Some("alice"), "k").unwrap().unwrap();
    assert!(out.authz.everyone_read());
    assert_eq!(out.authz.readers(), &vec!["bob".to_owned()]);
    // payload untouched
    assert_eq!(out.data, vec![0, 0, 0, 42]);
}

#[test]
fn update_acl_by_a_non_owner_is_forbidden() {
    let mut st = seeded_store();
    let r = st.update_acl(Some("bob"), "k", Authz::new("bob", true));
    assert_eq!(r, Err(StoreError::Forbidden));
}

#[test]
fn update_acl_of_an_absent_key_is_not_found() {
    let mut st = Store::new();
    let r = st.update_acl(Some("alice"), "k", Authz::new("alice", true));
    assert_eq!(r, Err(StoreError::NotFound));
}

#[test]
fn update_acl_can_hand_the_record_over() {
    // the replacement is the complete new ACL, owner included
    let mut st = seeded_store();
    let r = st.update_acl(Some("alice"), "k", Authz::new("bob", false));
    assert_eq!(r, Ok(()));
    assert_eq!(st.read(Some("alice"), "k"), Err(StoreError::Forbidden));
    let out = st.read(Some("bob"), "k").unwrap().unwrap();
    assert!(out.authz.is_owner("bob"));
    assert_eq!(
        st.update_payload(Some("alice"), "k", "1".to_owned(), vec![1]),
        Err(StoreError::Forbidden)
    );
    assert_eq!(st.delete(Some("bob"), "k"), Ok(()));
}

#[test]
fn delete_by_a_non_owner_is_forbidden() {
    let mut st = seeded_store();
    let r = st.delete(Some("bob"), "k");
    assert_eq!(r, Err(StoreError::Forbidden));
    assert!(st.read(Some("alice"), "k").unwrap().is_some());
}

#[test]
fn delete_is_final() {
    let mut st = seeded_store();
    assert_eq!(st.delete(Some("alice"), "k"), Ok(()));
    assert!(st.read(Some("alice"), "k").unwrap().is_none());
    assert_eq!(
        st.update_payload(Some("alice"), "k", "1".to_owned(), vec![1]),
        Err(StoreError::NotFound)
    );
    assert_eq!(st.delete(Some("alice"), "k"), Err(StoreError::NotFound));
}

#[test]
fn delete_without_a_principal_is_unauthenticated() {
    let mut st = seeded_store();
    assert_eq!(st.delete(None, "k"), Err(StoreError::Unauthenticated));
}

#[test]
fn records_under_other_keys_are_untouched() {
    let mut st = seeded_store();
    let r = st.create(
        Some("bob"),
        "other",
        "1".to_owned(),
        vec![0, 0, 0, 9],
        Authz::new("", false),
    );
    assert_eq!(r, Ok(()));
    assert_eq!(st.delete(Some("alice"), "k"), Ok(()));
    let out = st.read(Some("bob"), "other").unwrap().unwrap();
    assert_eq!(out.data, vec![0, 0, 0, 9]);
}
