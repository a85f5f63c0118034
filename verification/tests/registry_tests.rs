use chat_relay::keystore::KeyStore;
use chat_relay::registry::SessionRegistry;
use chat_relay::table::NameTable;
use rand::rngs::OsRng;
use rsa::RsaPrivateKey;

#[test]
fn a_new_registry_is_empty() {
    let registry: SessionRegistry<u32> = SessionRegistry::new();
    assert_eq!(registry.len(), 0);
    assert!(!registry.is_registered("alice"));
    assert_eq!(registry.identities(), Vec::<String>::new());
    assert_eq!(registry.snapshot_excluding("alice"), vec![]);
}

#[test]
fn distinct_registrations_are_all_counted() {
    let mut registry: SessionRegistry<u32> = SessionRegistry::new();
    let names = ["alice", "bob", "carol", "dave", "eve"];
    let mut handle: u32 = 0;
    for name in names {
        assert!(!registry.register(name.to_string(), handle));
        handle += 1;
        assert_eq!(registry.len(), handle as usize);
    }
    assert_eq!(registry.identities(), vec!["alice", "bob", "carol", "dave", "eve"]);
    for name in names {
        assert!(registry.is_registered(name));
    }
}

#[test]
fn the_last_registration_under_an_identity_wins() {
    let mut registry: SessionRegistry<u32> = SessionRegistry::new();
    assert!(!registry.register("alice".to_string(), 1));
    assert!(!registry.register("bob".to_string(), 2));
    assert!(registry.register("alice".to_string(), 3));
    assert_eq!(registry.len(), 2);
    assert_eq!(
        registry.snapshot_excluding("nobody"),
        vec![("alice".to_string(), 3), ("bob".to_string(), 2)]
    );
}

#[test]
fn unregistering_an_absent_identity_changes_nothing() {
    let mut registry: SessionRegistry<u32> = SessionRegistry::new();
    registry.register("alice".to_string(), 1);
    assert!(!registry.unregister("bob"));
    assert_eq!(registry.len(), 1);
    assert!(registry.unregister("alice"));
    assert_eq!(registry.len(), 0);
    assert!(!registry.unregister("alice"));
    assert_eq!(registry.len(), 0);
}

#[test]
fn the_size_is_the_number_of_connected_identities() {
    let mut registry: SessionRegistry<u32> = SessionRegistry::new();
    registry.register("alice".to_string(), 1);
    registry.register("bob".to_string(), 2);
    registry.register("carol".to_string(), 3);
    registry.unregister("bob");
    registry.register("alice".to_string(), 4);
    registry.register("bob".to_string(), 5);
    registry.unregister("carol");
    registry.unregister("carol");
    assert_eq!(registry.len(), 2);
    assert_eq!(
        registry.snapshot_excluding(""),
        vec![("alice".to_string(), 4), ("bob".to_string(), 5)]
    );
}

#[test]
fn a_snapshot_leaves_out_the_named_identity_only() {
    let mut registry: SessionRegistry<String> = SessionRegistry::new();
    registry.register("alice".to_string(), "h1".to_string());
    registry.register("bob".to_string(), "h2".to_string());
    registry.register("carol".to_string(), "h3".to_string());
    assert_eq!(
        registry.snapshot_excluding("bob"),
        vec![("alice".to_string(), "h1".to_string()), ("carol".to_string(), "h3".to_string())]
    );
    assert_eq!(registry.snapshot_excluding("dave").len(), 3);
    assert_eq!(registry.len(), 3);
}

#[test]
fn identities_differ_by_case_and_by_whitespace() {
    let mut registry: SessionRegistry<u32> = SessionRegistry::new();
    registry.register("alice".to_string(), 1);
    registry.register("Alice".to_string(), 2);
    registry.register("alice ".to_string(), 3);
    registry.register("".to_string(), 4);
    assert_eq!(registry.len(), 4);
    assert!(registry.is_registered(""));
    assert_eq!(registry.snapshot_excluding("alice").len(), 3);
}

#[test]
fn a_name_table_keeps_the_order_of_first_arrival() {
    let mut table: NameTable<u32> = NameTable::new();
    assert!(!table.insert("b".to_string(), 1));
    assert!(!table.insert("a".to_string(), 2));
    assert!(table.insert("b".to_string(), 3));
    assert_eq!(table.len(), 2);
    assert_eq!(table.name_at(0), "b");
    assert_eq!(*table.value_at(0), 3);
    assert_eq!(table.name_at(1), "a");
    assert_eq!(table.get("a"), Some(&2));
    assert_eq!(table.get("c"), None);
    assert!(table.contains("b"));
    assert_eq!(table.remove("b"), Some(3));
    assert_eq!(table.remove("b"), None);
    assert_eq!(table.name_at(0), "a");
    assert_eq!(table.len(), 1);
}

#[test]
fn a_key_store_keeps_one_key_for_each_identity() {
    let first = RsaPrivateKey::new(&mut OsRng, 512).expect("key pair").to_public_key();
    let second = RsaPrivateKey::new(&mut OsRng, 512).expect("key pair").to_public_key();
    let mut store = KeyStore::new();
    assert_eq!(store.len(), 0);
    assert!(!store.has_key("bob"));
    assert!(store.key_of("bob").is_none());
    store.store("bob".to_string(), first.clone());
    assert!(store.has_key("bob"));
    assert_eq!(store.key_of("bob"), Some(&first));
    store.store("bob".to_string(), second.clone());
    assert_eq!(store.len(), 1);
    assert_eq!(store.key_of("bob"), Some(&second));
    store.forget("alice");
    assert_eq!(store.len(), 1);
    store.forget("bob");
    assert_eq!(store.len(), 0);
    assert!(!store.has_key("bob"));
}
