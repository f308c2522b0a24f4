use hills::datetime::UtcDateTime;
use hills::db::TypedTree;
use hills::keys::GenericKey;
use hills::node::NodeUuid;
use hills::record::RecordMeta;
use hills::record::Version;
use hills::sync::Event;
use hills::sync::HotSyncEvent;
use hills::sync::HotSyncEventKind;
use hills::sync::RecordIteration;
use hills::sync_common::handle_incoming_record;
use hills::sync_common::make_hot_sync_event;
use hills::sync_common::tree_overview;
use hills::sync_server::BroadcastEvent;
use hills::sync_server::ConnState;
use hills::sync_server::RelayState;
use hills::version::SimpleVersion;

fn meta_for(key: GenericKey, node: NodeUuid) -> RecordMeta {
    let t = UtcDateTime::from_parts(2024, 6, 1, 12, 0, 0, 0).unwrap();
    RecordMeta {
        key,
        version: Version::NonVersioned,
        modified_by: "alice".to_string(),
        modified_on: node,
        modified: t,
        created: t,
        rkyv_version: SimpleVersion::new(0, 7),
    }
}

fn created_event(
    tree: &str,
    key: GenericKey,
    node: NodeUuid,
    data: Vec<u8>,
    meta_iteration: u32,
    data_iteration: u32,
) -> HotSyncEvent {
    HotSyncEvent {
        tree_name: tree.to_string(),
        key,
        source_addr: None,
        kind: HotSyncEventKind::CreatedOrChanged {
            meta: meta_for(key, node),
            meta_iteration,
            data,
            data_evolution: SimpleVersion::new(0, 0),
            data_iteration,
        },
    }
}

fn removed_event(tree: &str, key: GenericKey) -> HotSyncEvent {
    HotSyncEvent {
        tree_name: tree.to_string(),
        key,
        source_addr: None,
        kind: HotSyncEventKind::Removed,
    }
}

#[test]
fn created_or_changed_is_idempotent() {
    let mut tree = TypedTree::new("items".to_string(), false, 1, "alice".to_string());
    let key = GenericKey::new(3, 0);
    let ev = created_event("items", key, 2, vec![42], 1, 1);

    assert!(handle_incoming_record(&mut tree, &ev));
    let (meta_it, _, data_it, _) = tree.meta(key).unwrap().unwrap();
    assert_eq!((meta_it, data_it), (1, 1));
    assert_eq!(tree.get(key, SimpleVersion::new(0, 0)).unwrap(), vec![42]);

    // The second application compares equal iterations and is a no-op.
    assert!(!handle_incoming_record(&mut tree, &ev));
    let (meta_it, _, data_it, _) = tree.meta(key).unwrap().unwrap();
    assert_eq!((meta_it, data_it), (1, 1));
    assert_eq!(tree.get(key, SimpleVersion::new(0, 0)).unwrap(), vec![42]);
}

#[test]
fn removed_is_idempotent() {
    let mut tree = TypedTree::new("items".to_string(), false, 1, "alice".to_string());
    let key = GenericKey::new(3, 0);
    assert!(handle_incoming_record(&mut tree, &created_event("items", key, 2, vec![1], 1, 1)));
    let ev = removed_event("items", key);
    assert!(handle_incoming_record(&mut tree, &ev));
    assert!(tree.meta(key).unwrap().is_none());
    assert!(!handle_incoming_record(&mut tree, &ev));
    assert!(tree.meta(key).unwrap().is_none());
    assert_eq!(tree.entries_len(), 0);
}

#[test]
fn meta_only_change_never_creates() {
    let mut tree = TypedTree::new("items".to_string(), false, 1, "alice".to_string());
    let key = GenericKey::new(3, 0);
    let ev = HotSyncEvent {
        tree_name: "items".to_string(),
        key,
        source_addr: None,
        kind: HotSyncEventKind::MetaChanged { meta: meta_for(key, 2), meta_iteration: 5 },
    };
    assert!(!handle_incoming_record(&mut tree, &ev));
    assert_eq!(tree.entries_len(), 0);
}

#[test]
fn iteration_reconciliation() {
    // A and B wrote the same key while partitioned: A reached data
    // iteration 3, B only 2.
    let key = GenericKey::new(0, 0);
    let mut a = TypedTree::new("items".to_string(), false, 0xa, "a".to_string());
    let mut b = TypedTree::new("items".to_string(), false, 0xb, "b".to_string());
    assert!(handle_incoming_record(&mut a, &created_event("items", key, 0xa, vec![3], 3, 3)));
    assert!(handle_incoming_record(&mut b, &created_event("items", key, 0xb, vec![2], 2, 2)));

    // A's change arrives at B first and overwrites B's older copy.
    let change_a = hills::sync::RecordHotChange {
        tree: "items".to_string(),
        key,
        meta_iteration: 3,
        data_iteration: 3,
        kind: hills::sync::ChangeKind::CreateOrChange,
    };
    let ev_a = make_hot_sync_event(&a, &change_a, None).unwrap();
    assert!(handle_incoming_record(&mut b, &ev_a));
    assert_eq!(b.get(key, SimpleVersion::new(0, 0)).unwrap(), vec![3]);

    // B's older change is dropped at A by the iteration-monotonic check.
    let ev_b = created_event("items", key, 0xb, vec![2], 2, 2);
    assert!(!handle_incoming_record(&mut a, &ev_b));
    assert_eq!(a.get(key, SimpleVersion::new(0, 0)).unwrap(), vec![3]);
}

#[test]
fn overview_lists_iterations() {
    let mut tree = TypedTree::new("items".to_string(), false, 1, "alice".to_string());
    let k = GenericKey::new(4, 0);
    handle_incoming_record(&mut tree, &created_event("items", k, 2, vec![1], 2, 5));
    let ov = tree_overview(&tree);
    assert_eq!(ov, vec![(k, RecordIteration { meta_iteration: 2, data_iteration: 5 })]);
}

fn present(relay: &mut RelayState, conn: &mut ConnState, uuid: NodeUuid) {
    let ev = Event::PresentSelf { uuid, readable_name: format!("node-{}", uuid) };
    relay.process_message(conn, &ev);
}

fn issue_keys(relay: &mut RelayState, conn: &mut ConnState, tree: &str) -> (u32, u32) {
    // The tree must be announced before ids can be issued for it.
    let ev = Event::TreeOverview { tree: tree.to_string(), records: vec![] };
    relay.process_message(conn, &ev);
    let step = relay.process_message(conn, &Event::GetKeySet { tree: tree.to_string() });
    match &step.to_caller[0] {
        Event::KeySet { keys, .. } => (keys.start, keys.end),
        other => panic!("expected a key range, got {:?}", other),
    }
}

#[test]
fn relay_drops_unowned_first_create() {
    let mut relay = RelayState::new(0xce11);
    let mut conn = ConnState { conn_id: 1, info: None };
    present(&mut relay, &mut conn, 0xa);
    issue_keys(&mut relay, &mut conn, "items");

    // id 4242 lies outside the single issued range of 1000 ids.
    let forged = created_event("items", GenericKey::new(4242, 0), 0xa, vec![9], 0, 0);
    let step = relay.process_message(&mut conn, &Event::HotSyncEvent(forged));
    assert_eq!(step.broadcast.len(), 0);
    assert_eq!(step.to_caller.len(), 0);

    // The record did not reach the relay store.
    let ask = Event::RequestRecords {
        tree: "items".to_string(),
        keys: vec![GenericKey::new(4242, 0)],
    };
    let step = relay.process_message(&mut conn, &ask);
    assert_eq!(step.to_caller.len(), 0);
}

#[test]
fn relay_accepts_owned_create_and_rebroadcasts() {
    let mut relay = RelayState::new(0xce11);
    let mut conn = ConnState { conn_id: 1, info: None };
    present(&mut relay, &mut conn, 0xa);
    let (start, _end) = issue_keys(&mut relay, &mut conn, "items");

    let key = GenericKey::new(start, 0);
    let ev = created_event("items", key, 0xa, vec![7], 0, 0);
    let step = relay.process_message(&mut conn, &Event::HotSyncEvent(ev));
    assert_eq!(step.broadcast.len(), 1);
    match &step.broadcast[0] {
        BroadcastEvent::Sync(e) => {
            assert_eq!(e.key, key);
            assert_eq!(e.source_addr, Some(1));
        }
        other => panic!("expected a sync broadcast, got {:?}", other),
    }

    // The stored record is streamed back on request.
    let ask = Event::RequestRecords { tree: "items".to_string(), keys: vec![key] };
    let step = relay.process_message(&mut conn, &ask);
    assert_eq!(step.to_caller.len(), 1);
}

#[test]
fn tombstone_gating() {
    let mut relay = RelayState::new(0xce11);
    let mut conn_a = ConnState { conn_id: 1, info: None };
    present(&mut relay, &mut conn_a, 0xa);
    let (start, _) = issue_keys(&mut relay, &mut conn_a, "items");
    let key = GenericKey::new(start, 0);

    // A creates the record, then removes it; the relay writes a tombstone.
    relay.process_message(
        &mut conn_a,
        &Event::HotSyncEvent(created_event("items", key, 0xa, vec![7], 0, 0)),
    );
    relay.process_message(&mut conn_a, &Event::HotSyncEvent(removed_event("items", key)));

    // A re-create of the tombstoned key is dropped, and no state changes.
    let step = relay.process_message(
        &mut conn_a,
        &Event::HotSyncEvent(created_event("items", key, 0xa, vec![8], 0, 0)),
    );
    assert_eq!(step.broadcast.len(), 0);

    // B, who never saw the record, reconnects with an empty overview for
    // the tree. The relay still tells it about the removal.
    let mut conn_b = ConnState { conn_id: 2, info: None };
    present(&mut relay, &mut conn_b, 0xb);
    let overview = Event::TreeOverview { tree: "items".to_string(), records: vec![] };
    let step = relay.process_message(&mut conn_b, &overview);
    match &step.to_caller[0] {
        Event::RequestRecords { keys, .. } => assert!(keys.is_empty()),
        other => panic!("expected a record request, got {:?}", other),
    }
    assert_eq!(step.to_caller.len(), 2);
    match &step.to_caller[1] {
        Event::HotSyncEvent(e) => {
            assert_eq!(e.key, key);
            assert!(matches!(e.kind, HotSyncEventKind::Removed));
        }
        other => panic!("expected a removal, got {:?}", other),
    }

    // B's store stays empty: applying the removal to nothing is a no-op.
    let mut b_tree = TypedTree::new("items".to_string(), false, 0xb, "b".to_string());
    assert!(!handle_incoming_record(&mut b_tree, &removed_event("items", key)));
    assert_eq!(b_tree.entries_len(), 0);

    // A stale peer announcing the tombstoned key is not asked for it
    // either.
    let overview = Event::TreeOverview {
        tree: "items".to_string(),
        records: vec![(key, RecordIteration { meta_iteration: 0, data_iteration: 0 })],
    };
    let step = relay.process_message(&mut conn_b, &overview);
    match &step.to_caller[0] {
        Event::RequestRecords { keys, .. } => assert!(keys.is_empty()),
        other => panic!("expected a record request, got {:?}", other),
    }
}

#[test]
fn check_out_queue_rules() {
    let mut relay = RelayState::new(0xce11);
    let mut conn_a = ConnState { conn_id: 1, info: None };
    let mut conn_b = ConnState { conn_id: 2, info: None };
    present(&mut relay, &mut conn_a, 0xa);
    present(&mut relay, &mut conn_b, 0xb);
    let key = GenericKey::new(0, 0);

    // A checks out first, then B queues behind; A's duplicate request is
    // a no-op.
    let co = |t: &str, k| Event::CheckOut { tree: t.to_string(), keys: vec![k] };
    let step = relay.process_message(&mut conn_a, &co("items", key));
    assert_eq!(step.broadcast.len(), 1);
    let step = relay.process_message(&mut conn_a, &co("items", key));
    assert_eq!(step.broadcast.len(), 0);
    let step = relay.process_message(&mut conn_b, &co("items", key));
    assert_eq!(step.broadcast.len(), 1);

    // B is not at the head, so its return is ignored.
    let ret = |t: &str, k| Event::Return { tree: t.to_string(), keys: vec![k] };
    let step = relay.process_message(&mut conn_b, &ret("items", key));
    assert_eq!(step.broadcast.len(), 0);

    // A returns; B advances to the head.
    let step = relay.process_message(&mut conn_a, &ret("items", key));
    assert_eq!(step.broadcast.len(), 1);
    let events = relay.borrows_changed_events(&"items".to_string(), &vec![key]);
    assert_eq!(events.len(), 1);
    match &events[0] {
        Event::CheckedOut { queue, .. } => assert_eq!(queue, &vec![0xb]),
        other => panic!("expected a queue report, got {:?}", other),
    }
}
