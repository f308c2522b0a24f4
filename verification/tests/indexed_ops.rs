use hills::borrows::RecordBorrows;
use hills::common::Error;
use hills::db::HillsClient;
use hills::db::TreeIndexes;
use hills::db::TypedTree;
use hills::index::named::NamedIndex;
use hills::index::IndexError;
use hills::keys::GenericKey;
use hills::schema::StructField;
use hills::schema::StructInfo;
use hills::schema::TypeCollection;
use hills::schema::TypeInfo;
use hills::sync::HotSyncEvent;
use hills::sync::HotSyncEventKind;
use hills::sync_common::handle_incoming_record_indexed;
use hills::version::SimpleVersion;

fn items_collection() -> TypeCollection {
    let mut tc = TypeCollection::new();
    tc.root = "items::Item".to_string();
    tc.refs.insert(
        "items::Item".to_string(),
        TypeInfo::Struct(StructInfo {
            fields: vec![StructField { ident: "name".to_string(), ty: "String".to_string() }],
        }),
    );
    tc
}

fn one_named() -> TreeIndexes {
    let mut indexes = TreeIndexes::new();
    indexes.named.push(NamedIndex::new().case_sensitive(false));
    indexes
}

#[test]
fn indexed_insert_aborts_on_duplicate() {
    let mut client = HillsClient::open();
    let evo = SimpleVersion::new(0, 0);
    let mut items = client
        .open_tree("alice", "items", false, evo, items_collection())
        .unwrap();
    items.feed_key_pool(0..10);
    let mut indexes = one_named();

    let names = |s: &str| vec![s.to_string()];
    let k1 = items
        .insert_indexed(vec![1], evo, &mut indexes, &names("Widget"), &vec![])
        .unwrap();
    assert_eq!(indexes.named[0].get("widget"), Some(k1));

    // A second record with the same (folded) name is refused before any
    // record is written: the index is authoritative for uniqueness.
    let before = items.entries_len();
    let err = items
        .insert_indexed(vec![2], evo, &mut indexes, &names("WIDGET"), &vec![])
        .unwrap_err();
    assert!(matches!(err, Error::Index(IndexError::Duplicate(_))));
    assert_eq!(items.entries_len(), before);
    assert_eq!(indexes.named[0].get("widget"), Some(k1));

    // A fresh name goes through.
    let k2 = items
        .insert_indexed(vec![3], evo, &mut indexes, &names("Gadget"), &vec![])
        .unwrap();
    assert_eq!(indexes.named[0].get("gadget"), Some(k2));
}

#[test]
fn indexed_update_and_remove_track_names() {
    let mut client = HillsClient::open();
    let evo = SimpleVersion::new(0, 0);
    let mut items = client
        .open_tree("alice", "items", false, evo, items_collection())
        .unwrap();
    items.feed_key_pool(0..10);
    let mut indexes = one_named();
    let names = |s: &str| vec![s.to_string()];

    let key = items
        .insert_indexed(vec![1], evo, &mut indexes, &names("old name"), &vec![])
        .unwrap();

    let mut borrows = RecordBorrows::new();
    borrows.set_queue(items.tree_name(), key, vec![client.self_uuid()]);

    items
        .update_indexed(&borrows, key, vec![2], evo, &mut indexes, &names("new name"), &vec![])
        .unwrap();
    assert_eq!(indexes.named[0].get("old name"), None);
    assert_eq!(indexes.named[0].get("new name"), Some(key));
    assert_eq!(items.get(key, evo).unwrap(), vec![2]);

    items
        .remove_indexed(&borrows, key, &mut indexes, &names("new name"), &vec![])
        .unwrap();
    assert_eq!(indexes.named[0].get("new name"), None);
    assert!(matches!(items.get(key, evo).unwrap_err(), Error::RecordNotFound));
}

#[test]
fn indexed_inbound_application() {
    let mut tree = TypedTree::new("items".to_string(), false, 1, "alice".to_string());
    let mut indexes = one_named();
    let key = GenericKey::new(3, 0);
    let t = hills::datetime::UtcDateTime::from_parts(2024, 6, 1, 12, 0, 0, 0).unwrap();
    let meta = hills::record::RecordMeta {
        key,
        version: hills::record::Version::NonVersioned,
        modified_by: "bob".to_string(),
        modified_on: 2,
        modified: t,
        created: t,
        rkyv_version: SimpleVersion::new(0, 7),
    };
    let ev = HotSyncEvent {
        tree_name: "items".to_string(),
        key,
        source_addr: None,
        kind: HotSyncEventKind::CreatedOrChanged {
            meta,
            meta_iteration: 1,
            data: vec![9],
            data_evolution: SimpleVersion::new(0, 0),
            data_iteration: 1,
        },
    };
    let names = vec!["remote thing".to_string()];
    assert!(handle_incoming_record_indexed(&mut tree, &ev, &mut indexes, &names, &vec![]));
    assert_eq!(indexes.named[0].get("remote thing"), Some(key));

    // Replaying the same event is a no-op for store and indexes alike.
    assert!(!handle_incoming_record_indexed(&mut tree, &ev, &mut indexes, &names, &vec![]));
    assert_eq!(indexes.named[0].get("remote thing"), Some(key));

    let removal = HotSyncEvent {
        tree_name: "items".to_string(),
        key,
        source_addr: None,
        kind: HotSyncEventKind::Removed,
    };
    assert!(handle_incoming_record_indexed(&mut tree, &removal, &mut indexes, &names, &vec![]));
    assert_eq!(indexes.named[0].get("remote thing"), None);
    assert_eq!(tree.entries_len(), 0);
}
