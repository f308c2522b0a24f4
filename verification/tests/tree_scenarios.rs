use hills::borrows::RecordBorrows;
use hills::common::Error;
use hills::db::HillsClient;
use hills::db::TypedTree;
use hills::keys::GenericKey;
use hills::record::Version;
use hills::schema::StructField;
use hills::schema::StructInfo;
use hills::schema::TypeCollection;
use hills::schema::TypeInfo;
use hills::version::SimpleVersion;

fn one_field_collection(name: &str) -> TypeCollection {
    let mut tc = TypeCollection::new();
    tc.root = name.to_string();
    tc.refs.insert(
        name.to_string(),
        TypeInfo::Struct(StructInfo {
            fields: vec![StructField { ident: "x".to_string(), ty: "u32".to_string() }],
        }),
    );
    tc
}

fn checked_out(tree: &TypedTree, uuid: u128, key: GenericKey) -> RecordBorrows {
    let mut borrows = RecordBorrows::new();
    borrows.set_queue(tree.tree_name(), key, vec![uuid]);
    borrows
}

#[test]
fn fresh_insert() {
    let mut client = HillsClient::open();
    let evo = SimpleVersion::new(0, 0);
    let mut items = client
        .open_tree("alice", "items", false, evo, one_field_collection("items::Item"))
        .unwrap();
    items.feed_key_pool(0..10);
    let key = items.insert(vec![7], evo).unwrap();
    assert_eq!(key.revision, 0);
    assert_eq!(items.get(key, evo).unwrap(), vec![7]);
    let (meta_it, meta, data_it, data_evo) = items.meta(key).unwrap().unwrap();
    assert_eq!(meta_it, 0);
    assert_eq!(data_it, 0);
    assert_eq!(data_evo, SimpleVersion::new(0, 0));
    assert_eq!(meta.key, key);
    assert_eq!(meta.version, Version::NonVersioned);
}

#[test]
fn versioned_revision_chain() {
    let mut client = HillsClient::open();
    let evo = SimpleVersion::new(0, 0);
    let mut docs = client
        .open_tree("alice", "docs", true, evo, one_field_collection("docs::Doc"))
        .unwrap();
    docs.feed_key_pool(0..10);
    let k0 = docs.insert(vec![1], evo).unwrap();
    assert_eq!(k0.revision, 0);
    let (_, meta, _, _) = docs.meta(k0).unwrap().unwrap();
    assert_eq!(meta.version, Version::Draft(0));

    // Release revision 0 through a meta-only write.
    let uuid = client.self_uuid();
    let borrows = checked_out(&docs, uuid, k0);
    docs.set_version(&borrows, k0, Version::Released(0)).unwrap();
    let (meta_it, meta, data_it, _) = docs.meta(k0).unwrap().unwrap();
    assert_eq!(meta.version, Version::Released(0));
    assert_eq!(meta_it, 1);
    assert_eq!(data_it, 0);

    // Skipping a revision is refused.
    let k2 = GenericKey::new(k0.id, 2);
    let borrows2 = checked_out(&docs, uuid, k2);
    let err = docs.update(&borrows2, k2, vec![3], evo).unwrap_err();
    assert!(matches!(err, Error::VersioningMismatch(_)));

    // The next revision in order succeeds and starts as a draft.
    let k1 = GenericKey::new(k0.id, 1);
    let borrows1 = checked_out(&docs, uuid, k1);
    docs.update(&borrows1, k1, vec![2], evo).unwrap();
    let (_, meta1, _, _) = docs.meta(k1).unwrap().unwrap();
    assert_eq!(meta1.version, Version::Draft(0));
}

#[test]
fn check_out_required() {
    let mut client = HillsClient::open();
    let evo = SimpleVersion::new(0, 0);
    let mut items = client
        .open_tree("alice", "items", false, evo, one_field_collection("items::Item"))
        .unwrap();
    items.feed_key_pool(0..10);
    let key = items.insert(vec![7], evo).unwrap();

    // Without a check-out the update is refused.
    let empty = RecordBorrows::new();
    let err = items.update(&empty, key, vec![8], evo).unwrap_err();
    assert!(matches!(err, Error::Usage(_)));
    assert_eq!(items.get(key, evo).unwrap(), vec![7]);

    // At the head of the queue it succeeds and bumps both iterations.
    let borrows = checked_out(&items, client.self_uuid(), key);
    items.update(&borrows, key, vec![8], evo).unwrap();
    assert_eq!(items.get(key, evo).unwrap(), vec![8]);
    let (meta_it, _, data_it, _) = items.meta(key).unwrap().unwrap();
    assert_eq!(meta_it, 1);
    assert_eq!(data_it, 1);
}

#[test]
fn other_node_at_head_is_refused() {
    let mut client = HillsClient::open();
    let evo = SimpleVersion::new(0, 0);
    let mut items = client
        .open_tree("alice", "items", false, evo, one_field_collection("items::Item"))
        .unwrap();
    items.feed_key_pool(0..10);
    let key = items.insert(vec![7], evo).unwrap();

    // Someone else holds the record; this node waits behind them.
    let other: u128 = 0xfeed;
    let mut borrows = RecordBorrows::new();
    borrows.set_queue(items.tree_name(), key, vec![other, client.self_uuid()]);
    let err = items.update(&borrows, key, vec![9], evo).unwrap_err();
    assert!(matches!(err, Error::Usage(_)));
    assert_eq!(items.get(key, evo).unwrap(), vec![7]);
}

#[test]
fn released_records_are_immutable() {
    let mut client = HillsClient::open();
    let evo = SimpleVersion::new(0, 0);
    let mut docs = client
        .open_tree("alice", "docs", true, evo, one_field_collection("docs::Doc"))
        .unwrap();
    docs.feed_key_pool(0..10);
    let key = docs.insert(vec![1], evo).unwrap();
    let borrows = checked_out(&docs, client.self_uuid(), key);
    docs.set_version(&borrows, key, Version::Released(0)).unwrap();

    let err = docs.update(&borrows, key, vec![2], evo).unwrap_err();
    assert!(matches!(err, Error::VersioningMismatch(_)));
    let err = docs.remove(&borrows, key).unwrap_err();
    assert!(matches!(err, Error::Usage(_)));
    assert_eq!(docs.get(key, evo).unwrap(), vec![1]);
}

#[test]
fn remove_and_out_of_keys() {
    let mut client = HillsClient::open();
    let evo = SimpleVersion::new(0, 0);
    let mut items = client
        .open_tree("alice", "items", false, evo, one_field_collection("items::Item"))
        .unwrap();
    items.feed_key_pool(0..1);
    let key = items.insert(vec![7], evo).unwrap();
    // The pool held a single id.
    let err = items.insert(vec![8], evo).unwrap_err();
    assert!(matches!(err, Error::OutOfKeys));

    let borrows = checked_out(&items, client.self_uuid(), key);
    assert_eq!(items.remove(&borrows, key).unwrap(), Some(()));
    assert!(matches!(items.get(key, evo).unwrap_err(), Error::RecordNotFound));
    // Removing an absent record reports None.
    assert_eq!(items.remove(&borrows, key).unwrap(), None);
}

#[test]
fn get_rejects_evolution_mismatch() {
    let mut client = HillsClient::open();
    let evo = SimpleVersion::new(0, 0);
    let mut items = client
        .open_tree("alice", "items", false, evo, one_field_collection("items::Item"))
        .unwrap();
    items.feed_key_pool(0..10);
    let key = items.insert(vec![7], evo).unwrap();
    let err = items.get(key, SimpleVersion::new(0, 1)).unwrap_err();
    assert!(matches!(err, Error::EvolutionMismatch(_)));
}

#[test]
fn open_tree_rules() {
    let mut client = HillsClient::open();
    let evo = SimpleVersion::new(0, 0);
    let tc = one_field_collection("items::Item");

    // Reserved names are refused.
    let err = match client.open_tree("alice", "_items", false, evo, tc.clone()) {
        Err(e) => e,
        Ok(_) => panic!("reserved name accepted"),
    };
    assert!(matches!(err, Error::Usage(_)));

    client.open_tree("alice", "items", false, evo, tc.clone()).unwrap();

    // The versioning flag of a tree cannot change after creation.
    let err = match client.open_tree("alice", "items", true, evo, tc.clone()) {
        Err(e) => e,
        Ok(_) => panic!("versioning change accepted"),
    };
    assert!(matches!(err, Error::VersioningMismatch(_)));

    // Reopening at the same evolution with identical shape is fine.
    client.open_tree("alice", "items", false, evo, tc.clone()).unwrap();

    // A changed shape at the same evolution is refused.
    let mut changed = TypeCollection::new();
    changed.root = "items::Item".to_string();
    changed.refs.insert(
        "items::Item".to_string(),
        TypeInfo::Struct(StructInfo {
            fields: vec![StructField { ident: "x".to_string(), ty: "u64".to_string() }],
        }),
    );
    let err = match client.open_tree("alice", "items", false, evo, changed) {
        Err(e) => e,
        Ok(_) => panic!("changed shape accepted"),
    };
    assert!(matches!(err, Error::EvolutionMismatch(_)));

    // A newer evolution registers alongside the old one.
    client
        .open_tree("alice", "items", false, SimpleVersion::new(0, 1), tc)
        .unwrap();
}

#[test]
fn all_revisions_in_byte_order() {
    let mut client = HillsClient::open();
    let evo = SimpleVersion::new(0, 0);
    let mut items = client
        .open_tree("alice", "items", false, evo, one_field_collection("items::Item"))
        .unwrap();
    items.feed_key_pool(5..8);
    let k5 = items.insert(vec![5], evo).unwrap();
    let k6 = items.insert(vec![6], evo).unwrap();
    let k7 = items.insert(vec![7], evo).unwrap();
    assert_eq!(items.all_revisions(), vec![k5, k6, k7]);
    assert_eq!(k5, GenericKey::new(5, 0));
    assert_eq!(k6, GenericKey::new(6, 0));
    assert_eq!(k7, GenericKey::new(7, 0));
}
