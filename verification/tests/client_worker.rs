use hills::borrows::RecordCheckOutState;
use hills::db::HillsClient;
use hills::db::TypedTree;
use hills::keys::GenericKey;
use hills::sync::ChangeNotification;
use hills::sync::Event;
use hills::sync::SyncClientCommand;
use hills::sync_client::handle_command;
use hills::sync_client::handle_server_event;
use hills::sync_client::request_keys;
use hills::sync_client::syncing_greeting;

#[test]
fn server_uuid_mismatch_disconnects() {
    let mut client = HillsClient::open();
    let mut trees: Vec<TypedTree> = Vec::new();

    // The first relay seen is remembered.
    let hello = Event::PresentSelf { uuid: 0x5e1f, readable_name: "relay".to_string() };
    let step = handle_server_event(&mut client, &mut trees, &hello);
    assert!(!step.disconnect);
    assert!(matches!(step.outgoing[0], Event::PresentSelf { .. }));
    assert_eq!(client.server_uuid(), Some(0x5e1f));

    // A different relay is refused and the binding kept.
    let other = Event::PresentSelf { uuid: 0xbad, readable_name: "other".to_string() };
    let step = handle_server_event(&mut client, &mut trees, &other);
    assert!(step.disconnect);
    assert_eq!(client.server_uuid(), Some(0x5e1f));
}

#[test]
fn key_set_feeds_the_pool() {
    let mut client = HillsClient::open();
    let mut trees = vec![TypedTree::new(
        "items".to_string(),
        false,
        client.self_uuid(),
        "alice".to_string(),
    )];
    // An empty pool asks for ids.
    let asks = request_keys(&trees);
    assert_eq!(asks.len(), 1);
    assert!(matches!(&asks[0], Event::GetKeySet { tree } if tree == "items"));

    let ev = Event::KeySet { tree: "items".to_string(), keys: 0..1000 };
    let step = handle_server_event(&mut client, &mut trees, &ev);
    assert!(step.outgoing.is_empty());
    assert_eq!(trees[0].key_pool_stats(), 1000);
    // A full pool asks for nothing.
    assert!(request_keys(&trees).is_empty());
}

#[test]
fn checked_out_updates_the_mirror() {
    let mut client = HillsClient::open();
    let me = client.self_uuid();
    let mut trees = vec![TypedTree::new(
        "items".to_string(),
        false,
        me,
        "alice".to_string(),
    )];
    let key = GenericKey::new(1, 0);

    let ev = Event::CheckedOut { tree: "items".to_string(), key, queue: vec![me, 0xb] };
    let step = handle_server_event(&mut client, &mut trees, &ev);
    assert!(matches!(step.notifications[0], ChangeNotification::BorrowsChanged));
    assert!(trees[0].is_checked_out(client.borrows(), key));
    assert_eq!(
        trees[0].checked_out_by(client.borrows(), key),
        RecordCheckOutState::CheckedOut
    );

    // Behind another node's head this node only waits.
    let ev = Event::CheckedOut { tree: "items".to_string(), key, queue: vec![0xb, me] };
    handle_server_event(&mut client, &mut trees, &ev);
    assert_eq!(
        trees[0].checked_out_by(client.borrows(), key),
        RecordCheckOutState::WaitingFor(0xb)
    );
    assert!(!trees[0].is_checked_out(client.borrows(), key));
}

#[test]
fn greeting_presents_overviews_and_key_requests() {
    let mut client = HillsClient::open();
    client.set_readable_name("alice's desk").unwrap();
    let trees = vec![TypedTree::new(
        "items".to_string(),
        false,
        client.self_uuid(),
        "alice".to_string(),
    )];
    let frames = syncing_greeting(&client, &trees);
    assert_eq!(frames.len(), 3);
    assert!(matches!(&frames[0], Event::PresentSelf { readable_name, .. }
        if readable_name == "alice's desk"));
    assert!(matches!(&frames[1], Event::TreeOverview { tree, records }
        if tree == "items" && records.is_empty()));
    assert!(matches!(&frames[2], Event::GetKeySet { tree } if tree == "items"));
}

#[test]
fn commands_become_wire_frames() {
    let trees = vec![TypedTree::new(
        "items".to_string(),
        false,
        1,
        "alice".to_string(),
    )];
    let key = GenericKey::new(7, 0);

    let step = handle_command(&trees, &SyncClientCommand::CheckOut("items".to_string(), key));
    assert!(matches!(&step.outgoing[0], Event::CheckOut { tree, keys }
        if tree == "items" && keys == &vec![key]));

    let step = handle_command(&trees, &SyncClientCommand::Release("items".to_string(), key));
    assert!(matches!(&step.outgoing[0], Event::Return { tree, keys }
        if tree == "items" && keys == &vec![key]));

    let step = handle_command(&trees, &SyncClientCommand::Disconnect);
    assert!(step.disconnect);

    // A change for a record that no longer exists produces no frame.
    let gone = hills::sync::RecordHotChange {
        tree: "items".to_string(),
        key,
        meta_iteration: 0,
        data_iteration: 0,
        kind: hills::sync::ChangeKind::CreateOrChange,
    };
    let step = handle_command(&trees, &SyncClientCommand::Change(gone));
    assert!(step.outgoing.is_empty());
}

#[test]
fn local_changes_are_queued_for_the_worker() {
    let mut client = HillsClient::open();
    let evo = hills::version::SimpleVersion::new(0, 0);
    let mut tc = hills::schema::TypeCollection::new();
    tc.root = "items::Item".to_string();
    tc.refs.insert(
        "items::Item".to_string(),
        hills::schema::TypeInfo::Struct(hills::schema::StructInfo { fields: vec![] }),
    );
    let mut items = client.open_tree("alice", "items", false, evo, tc).unwrap();
    items.feed_key_pool(0..10);
    let key = items.insert(vec![1], evo).unwrap();
    assert_eq!(items.pending_len(), 1);
    match items.pending_at(0) {
        SyncClientCommand::Change(ch) => {
            assert_eq!(ch.key, key);
            assert_eq!(ch.kind, hills::sync::ChangeKind::CreateOrChange);
            assert_eq!((ch.meta_iteration, ch.data_iteration), (0, 0));
        }
        other => panic!("expected a change command, got {:?}", other),
    }
    items.clear_pending();
    assert_eq!(items.pending_len(), 0);
}
