use crate::db::HillsClient;
use crate::db::TypedTree;
use crate::key_pool::spec_clamp_u32;
use crate::key_pool::spec_keys_available;
use crate::keys::GenericKey;
use crate::opaque::OpaqueKey;
use crate::sync::ChangeKind;
use crate::sync::ChangeNotification;
use crate::sync::Event;
use crate::sync::HotSyncEvent;
use crate::sync::SyncClientCommand;
use crate::sync_common::collect_records;
use crate::sync_common::compare_and_request_missing_records;
use crate::sync_common::handle_incoming_record;
use crate::sync_common::make_hot_sync_event;
use crate::sync_common::spec_apply_kind;
use crate::sync_common::spec_missing_of;
use crate::sync_common::spec_overview_of;
use crate::sync_common::spec_view_of;
use crate::sync_common::tree_overview;
use vstd::prelude::*;

verus! {

/// What one step of the client worker decided: frames to send to the
/// relay, notifications for the embedding program, and whether the
/// connection must be dropped.
pub struct ClientStep {
    pub outgoing: Vec<Event>,
    pub notifications: Vec<ChangeNotification>,
    pub disconnect: bool,
}

impl ClientStep {
    fn new() -> (r: ClientStep)
        ensures
            r.outgoing@ == Seq::<Event>::empty(),
            r.notifications@ == Seq::<ChangeNotification>::empty(),
            !r.disconnect,
    {
        ClientStep { outgoing: Vec::new(), notifications: Vec::new(), disconnect: false }
    }
}

/// The first index among the trees whose name reads as `name`.
pub fn find_tree(trees: &Vec<TypedTree>, name: &String) -> (r: Option<usize>)
    ensures
        match r {
            Some(i) => 0 <= i < trees@.len() && trees@[i as int].spec_name() == name@ && forall|
                j: int,
            | 0 <= j < i ==> (#[trigger] trees@[j]).spec_name() != name@,
            None => forall|j: int| 0 <= j < trees@.len() ==> (#[trigger] trees@[j]).spec_name() != name@,
        },
{
    let mut i: usize = 0;
    while i < trees.len()
        invariant
            0 <= i <= trees@.len(),
            forall|j: int| 0 <= j < i ==> (#[trigger] trees@[j]).spec_name() != name@,
        decreases trees@.len() - i,
    {
        if trees[i].tree_name().eq(name) {
            return Some(i);
        }
        i = i + 1;
    }
    None
}

/// The first index among the trees whose name reads as `name`, as a
/// mathematical value.
pub open spec fn spec_tree_index(trees: Seq<TypedTree>, name: Seq<char>) -> Option<int>
    decreases trees.len(),
{
    if trees.len() == 0 {
        None
    } else if trees[0].spec_name() == name {
        Some(0)
    } else {
        match spec_tree_index(trees.drop_first(), name) {
            Some(i) => Some(i + 1),
            None => None,
        }
    }
}

pub proof fn lemma_tree_index_at(trees: Seq<TypedTree>, i: int, name: Seq<char>)
    requires
        0 <= i < trees.len(),
        trees[i].spec_name() == name,
        forall|j: int| 0 <= j < i ==> (#[trigger] trees[j]).spec_name() != name,
    ensures
        spec_tree_index(trees, name) == Some(i),
    decreases trees.len(),
{
    if i > 0 {
        lemma_tree_index_at(trees.drop_first(), i - 1, name);
    }
}

pub proof fn lemma_tree_index_absent(trees: Seq<TypedTree>, name: Seq<char>)
    requires
        forall|j: int| 0 <= j < trees.len() ==> (#[trigger] trees[j]).spec_name() != name,
    ensures
        spec_tree_index(trees, name) is None,
    decreases trees.len(),
{
    if trees.len() > 0 {
        lemma_tree_index_absent(trees.drop_first(), name);
    }
}

/// One overview frame for one tree.
pub open spec fn spec_is_overview_event(e: Event, t: TypedTree) -> bool {
    e matches Event::TreeOverview { tree, records } && tree@ == t.spec_name() && records@
        == spec_overview_of(t)
}

/// All trees well-formed.
pub open spec fn spec_trees_wf(trees: Seq<TypedTree>) -> bool {
    forall|i: int| 0 <= i < trees.len() ==> (#[trigger] trees[i]).wf()
}

/// The names of the trees whose key pool has fewer than 3 ids left, in
/// tree order.
pub open spec fn spec_trees_needing_keys(trees: Seq<TypedTree>) -> Seq<Seq<char>>
    decreases trees.len(),
{
    if trees.len() == 0 {
        Seq::<Seq<char>>::empty()
    } else {
        let rest = spec_trees_needing_keys(trees.drop_last());
        if spec_clamp_u32(spec_keys_available(trees.last().spec_pool())) < 3 {
            rest.push(trees.last().spec_name())
        } else {
            rest
        }
    }
}

/// Asks the relay for a fresh id range for every tree whose pool runs
/// low (fewer than 3 ids).
pub fn request_keys(trees: &Vec<TypedTree>) -> (r: Vec<Event>)
    ensures
        r@.len() == spec_trees_needing_keys(trees@).len(),
        forall|i: int|
            0 <= i < r@.len() ==> ((#[trigger] r@[i]) matches Event::GetKeySet { tree } && tree@
                == spec_trees_needing_keys(trees@)[i]),
{
    let mut out: Vec<Event> = Vec::new();
    let mut i: usize = 0;
    proof {
        assert(trees@.take(0) =~= Seq::<TypedTree>::empty());
    }
    while i < trees.len()
        invariant
            0 <= i <= trees@.len(),
            out@.len() == spec_trees_needing_keys(trees@.take(i as int)).len(),
            forall|j: int|
                0 <= j < out@.len() ==> ((#[trigger] out@[j]) matches Event::GetKeySet { tree }
                    && tree@ == spec_trees_needing_keys(trees@.take(i as int))[j]),
        decreases trees@.len() - i,
    {
        proof {
            assert(trees@.take(i as int + 1).drop_last() =~= trees@.take(i as int));
            assert(trees@.take(i as int + 1).last() == trees@[i as int]);
        }
        let available = trees[i].key_pool_stats();
        if available < 3 {
            out.push(Event::GetKeySet { tree: trees[i].tree_name().clone() });
        }
        i = i + 1;
    }
    proof {
        assert(trees@.take(trees@.len() as int) =~= trees@);
    }
    out
}

/// The frames a client sends on entering the syncing state: its own
/// identity, one overview per tree, and key requests for every tree
/// running low.
pub fn syncing_greeting(client: &HillsClient, trees: &Vec<TypedTree>) -> (r: Vec<Event>)
    requires
        spec_trees_wf(trees@),
    ensures
        r@.len() == 1 + trees@.len() + spec_trees_needing_keys(trees@).len(),
        r@[0] matches Event::PresentSelf { uuid, readable_name } && uuid == client.spec_uuid()
            && readable_name@ == client.spec_readable_name(),
        forall|t: int|
            0 <= t < trees@.len() ==> spec_is_overview_event(r@[1 + t], #[trigger] trees@[t]),
        forall|j: int|
            #![trigger spec_trees_needing_keys(trees@)[j]]
            0 <= j < spec_trees_needing_keys(trees@).len() ==> (r@[1 + trees@.len()
                + j] matches Event::GetKeySet { tree } && tree@ == spec_trees_needing_keys(trees@)[j]),
{
    let mut out: Vec<Event> = Vec::new();
    out.push(
        Event::PresentSelf {
            uuid: client.self_uuid(),
            readable_name: client.readable_name().clone(),
        },
    );
    let mut t: usize = 0;
    while t < trees.len()
        invariant
            spec_trees_wf(trees@),
            0 <= t <= trees@.len(),
            out@.len() == 1 + t,
            out@[0] matches Event::PresentSelf { uuid, readable_name } && uuid
                == client.spec_uuid() && readable_name@ == client.spec_readable_name(),
            forall|j: int|
                0 <= j < t ==> spec_is_overview_event(out@[1 + j], #[trigger] trees@[j]),
        decreases trees@.len() - t,
    {
        proof {
            assert(trees@[t as int].wf());
        }
        let ov = tree_overview(&trees[t]);
        let ghost pre_out = out@;
        out.push(Event::TreeOverview { tree: trees[t].tree_name().clone(), records: ov });
        proof {
            assert(spec_is_overview_event(out@[1 + t as int], trees@[t as int]));
            assert forall|j: int|
                0 <= j < t + 1 implies spec_is_overview_event(
                out@[1 + j],
                #[trigger] trees@[j],
            ) by {
                if j < t {
                    assert(out@[1 + j] == pre_out[1 + j]);
                    assert(spec_is_overview_event(pre_out[1 + j], trees@[j]));
                }
            }
        }
        t = t + 1;
    }
    let mut key_events = request_keys(trees);
    let ghost mid = out@;
    let ghost keys_snap = key_events@;
    out.append(&mut key_events);
    proof {
        assert(out@ == mid + keys_snap);
        assert forall|j: int|
            #![trigger spec_trees_needing_keys(trees@)[j]]
            0 <= j < spec_trees_needing_keys(trees@).len() implies (out@[1 + trees@.len()
            + j] matches Event::GetKeySet { tree } && tree@ == spec_trees_needing_keys(trees@)[j]) by {
            assert(out@[1 + trees@.len() + j] == keys_snap[j]);
        }
    }
    out
}

/// Handles one frame from the relay, as the client worker's state machine
/// prescribes. Only the connection-level decision (drop or keep) and the
/// local state changes are made here; the embedding program performs the
/// sends.
pub fn handle_server_event(
    client: &mut HillsClient,
    trees: &mut Vec<TypedTree>,
    ev: &Event,
) -> (r: ClientStep)
    requires
        old(client).wf(),
        spec_trees_wf(old(trees)@),
    ensures
        final(client).wf(),
        spec_trees_wf(final(trees)@),
        final(client).spec_uuid() == old(client).spec_uuid(),
        final(client).spec_readable_name() == old(client).spec_readable_name(),
        final(trees)@.len() == old(trees)@.len(),
        forall|i: int|
            0 <= i < final(trees)@.len() ==> (#[trigger] final(trees)@[i]).same_identity(
                &old(trees)@[i],
            ),
        match ev {
            Event::PresentSelf { uuid, .. } => {
                &&& final(trees)@ == old(trees)@
                &&& match old(client).spec_server_uuid() {
                    None => !r.disconnect && final(client).spec_server_uuid() == Some(*uuid),
                    Some(s) => r.disconnect == (s != uuid) && final(client).spec_server_uuid()
                        == Some(s),
                }
                &&& !r.disconnect ==> r.outgoing@.len() >= 1 && (r.outgoing@[0] matches Event::PresentSelf {
                    uuid: u,
                    readable_name: n,
                } && u == old(client).spec_uuid() && n@ == old(client).spec_readable_name())
                &&& r.disconnect ==> r.outgoing@.len() == 0
            },
            Event::TreeOverview { tree, records } => {
                &&& *final(client) == *old(client)
                &&& final(trees)@ == old(trees)@
                &&& !r.disconnect
                &&& match spec_tree_index(old(trees)@, tree@) {
                    Some(i) => r.outgoing@.len() == 1 && (r.outgoing@[0] matches Event::RequestRecords {
                        tree: t,
                        keys,
                    } && t@ == tree@ && keys@ == spec_missing_of(
                        old(trees)@[i],
                        records@,
                        Seq::<(String, GenericKey)>::empty(),
                    )),
                    None => r.outgoing@.len() == 0,
                }
            },
            Event::KeySet { tree, keys } => {
                &&& *final(client) == *old(client)
                &&& !r.disconnect
                &&& r.outgoing@.len() == 0
                &&& match spec_tree_index(old(trees)@, tree@) {
                    Some(i) => final(trees)@[i].spec_pool() == old(trees)@[i].spec_pool().push(
                        *keys,
                    ) && final(trees)@[i].spec_entries() == old(trees)@[i].spec_entries() && forall|
                        j: int,
                    | 0 <= j < old(trees)@.len() && j != i ==> final(trees)@[j] == old(trees)@[j],
                    None => final(trees)@ == old(trees)@,
                }
            },
            Event::CheckedOut { tree, key, queue } => {
                &&& final(trees)@ == old(trees)@
                &&& !r.disconnect
                &&& r.outgoing@.len() == 0
                &&& forall|t: Seq<char>, k: GenericKey|
                    #[trigger] crate::borrows::spec_queue(final(client).spec_borrows(), t, k)
                        == if t == tree@ && k == *key {
                        queue@
                    } else {
                        crate::borrows::spec_queue(old(client).spec_borrows(), t, k)
                    }
                &&& r.notifications@.len() == 1 && r.notifications@[0] is BorrowsChanged
            },
            Event::HotSyncEvent(hse) => {
                &&& *final(client) == *old(client)
                &&& !r.disconnect
                &&& r.outgoing@.len() == 0
                &&& match spec_tree_index(old(trees)@, hse.tree_name@) {
                    Some(i) => {
                        &&& spec_view_of(final(trees)@[i].spec_get(hse.key)) == spec_apply_kind(
                            hse.key,
                            spec_view_of(old(trees)@[i].spec_get(hse.key)),
                            hse.kind@,
                        )
                        &&& forall|k2: GenericKey|
                            k2 != hse.key ==> final(trees)@[i].spec_get(k2) == old(
                                trees,
                            )@[i].spec_get(k2)
                        &&& forall|j: int|
                            0 <= j < old(trees)@.len() && j != i ==> final(trees)@[j] == old(
                                trees,
                            )@[j]
                        &&& r.notifications@.len() == 1 && (r.notifications@[0] matches ChangeNotification::Tree {
                            key,
                            ..
                        } && key.tree_name@ == hse.tree_name@ && key.id == hse.key.id
                            && key.revision == hse.key.revision)
                    },
                    None => final(trees)@ == old(trees)@ && r.notifications@.len() == 0,
                }
            },
            Event::RequestRecords { tree, keys } => {
                &&& *final(client) == *old(client)
                &&& final(trees)@ == old(trees)@
                &&& !r.disconnect
                &&& forall|x: int|
                    0 <= x < r.outgoing@.len() ==> ((#[trigger] r.outgoing@[x]) matches Event::HotSyncEvent(
                        e,
                    ) && e.tree_name@ == tree@ && keys@.contains(e.key) && e.source_addr is None)
                &&& match spec_tree_index(old(trees)@, tree@) {
                    Some(i) => forall|j: int|
                        0 <= j < keys@.len() && old(trees)@[i].spec_get(#[trigger] keys@[j])
                            is Some ==> exists|x: int|
                            0 <= x < r.outgoing@.len() && ((
                            #[trigger] r.outgoing@[x]) matches Event::HotSyncEvent(e) && e.key
                                == keys@[j]),
                    None => r.outgoing@.len() == 0,
                }
            },
            _ => {
                &&& *final(client) == *old(client)
                &&& final(trees)@ == old(trees)@
                &&& !r.disconnect
                &&& r.outgoing@.len() == 0
            },
        },
{
    let mut step = ClientStep::new();
    match ev {
        Event::PresentSelf { uuid, .. } => {
            let accepted = client.note_server_uuid(*uuid);
            if accepted {
                let mut greeting = syncing_greeting(client, trees);
                let ghost greeting_snap = greeting@;
                step.outgoing.append(&mut greeting);
                proof {
                    assert(step.outgoing@ =~= greeting_snap);
                }
            } else {
                step.disconnect = true;
            }
        },
        Event::GetTreeOverview { .. } => {},
        Event::TreeOverview { tree, records } => {
            match find_tree(trees, tree) {
                Some(i) => {
                    proof {
                        lemma_tree_index_at(trees@, i as int, tree@);
                        assert(trees@[i as int].wf());
                    }
                    let pair = compare_and_request_missing_records(&trees[i], records, None);
                    step.outgoing.push(Event::RequestRecords { tree: tree.clone(), keys: pair.0 });
                },
                None => {
                    proof {
                        lemma_tree_index_absent(trees@, tree@);
                    }
                },
            }
        },
        Event::KeySet { tree, keys } => {
            match find_tree(trees, tree) {
                Some(i) => {
                    proof {
                        lemma_tree_index_at(trees@, i as int, tree@);
                        assert(trees@[i as int].wf());
                    }
                    let range = keys.start..keys.end;
                    proof {
                        assert(range == *keys);
                    }
                    trees[i].feed_key_pool(range);
                    proof {
                        assert forall|j: int|
                            0 <= j < trees@.len() implies (#[trigger] trees@[j]).wf() by {
                            if j != i {
                                assert(trees@[j] == old(trees)@[j]);
                            }
                        }
                    }
                },
                None => {
                    proof {
                        lemma_tree_index_absent(trees@, tree@);
                    }
                },
            }
        },
        Event::CheckedOut { tree, key, queue } => {
            let q = crate::borrows::copy_queue(queue);
            client.apply_checked_out(tree, *key, q);
            step.notifications.push(ChangeNotification::BorrowsChanged);
        },
        Event::HotSyncEvent(hse) => {
            match find_tree(trees, &hse.tree_name) {
                Some(i) => {
                    proof {
                        lemma_tree_index_at(trees@, i as int, hse.tree_name@);
                        assert(trees@[i as int].wf());
                    }
                    handle_incoming_record(&mut trees[i], hse);
                    let notification = ChangeNotification::Tree {
                        key: OpaqueKey::new(hse.tree_name.clone(), hse.key),
                        kind: ChangeKind::of_event_kind(&hse.kind),
                    };
                    step.notifications.push(notification);
                    proof {
                        assert forall|j: int|
                            0 <= j < trees@.len() implies (#[trigger] trees@[j]).wf() by {
                            if j != i {
                                assert(trees@[j] == old(trees)@[j]);
                            }
                        }
                    }
                },
                None => {
                    proof {
                        lemma_tree_index_absent(trees@, hse.tree_name@);
                    }
                },
            }
        },
        Event::RequestRecords { tree, keys } => {
            match find_tree(trees, tree) {
                Some(i) => {
                    proof {
                        lemma_tree_index_at(trees@, i as int, tree@);
                        assert(trees@[i as int].wf());
                    }
                    let mut events = collect_records(&trees[i], keys, None);
                    let ghost events_snap = events@;
                    step.outgoing.append(&mut events);
                    proof {
                        assert(step.outgoing@ =~= events_snap);
                        assert forall|j: int|
                            0 <= j < keys@.len() && trees@[i as int].spec_get(
                                #[trigger] keys@[j],
                            ) is Some implies exists|x: int|
                            0 <= x < step.outgoing@.len() && ((
                        #[trigger] step.outgoing@[x]) matches Event::HotSyncEvent(e) && e.key
                            == keys@[j]) by {
                            let w = choose|w: int|
                                0 <= w < events_snap.len() && ((#[trigger] events_snap[w]) matches Event::HotSyncEvent(
                                    e,
                                ) && e.key == keys@[j]);
                            assert(step.outgoing@[w] == events_snap[w]);
                        }
                    }
                },
                None => {
                    proof {
                        lemma_tree_index_absent(trees@, tree@);
                    }
                },
            }
        },
        Event::GetKeySet { .. } | Event::CheckOut { .. } | Event::Return { .. } => {
            // A relay never sends these; ignore them.
        },
    }
    step
}

/// Handles one command from the database layer while connected: turning
/// local changes into hot-sync events, check-out requests into wire
/// frames, and tree creation into key requests.
pub fn handle_command(trees: &Vec<TypedTree>, cmd: &SyncClientCommand) -> (r: ClientStep)
    requires
        spec_trees_wf(trees@),
    ensures
        r.notifications@.len() == 0,
        match cmd {
            SyncClientCommand::Connect(_, _) => !r.disconnect && r.outgoing@.len() == 0,
            SyncClientCommand::Disconnect => r.disconnect && r.outgoing@.len() == 0,
            SyncClientCommand::TreeCreated(_) => {
                &&& !r.disconnect
                &&& r.outgoing@.len() == spec_trees_needing_keys(trees@).len()
                &&& forall|i: int|
                    0 <= i < r.outgoing@.len() ==> ((#[trigger] r.outgoing@[i]) matches Event::GetKeySet {
                        tree,
                    } && tree@ == spec_trees_needing_keys(trees@)[i])
            },
            SyncClientCommand::Change(ch) => {
                &&& !r.disconnect
                &&& r.outgoing@.len() <= 1
                &&& match spec_tree_index(trees@, ch.tree@) {
                    Some(i) => {
                        &&& (r.outgoing@.len() == 1 ==> (r.outgoing@[0] matches Event::HotSyncEvent(
                            e,
                        ) && e.tree_name@ == ch.tree@ && e.key == ch.key && e.source_addr is None))
                        &&& (r.outgoing@.len() == 0 ==> !(ch.kind is Remove) && trees@[i].spec_get(
                            ch.key,
                        ) is None)
                    },
                    None => r.outgoing@.len() == 0,
                }
            },
            SyncClientCommand::CheckOut(t, k) => {
                &&& !r.disconnect
                &&& r.outgoing@.len() == 1
                &&& (r.outgoing@[0] matches Event::CheckOut { tree, keys } && tree@ == t@
                    && keys@.len() == 1 && keys@[0] == k)
            },
            SyncClientCommand::Release(t, k) => {
                &&& !r.disconnect
                &&& r.outgoing@.len() == 1
                &&& (r.outgoing@[0] matches Event::Return { tree, keys } && tree@ == t@
                    && keys@.len() == 1 && keys@[0] == k)
            },
        },
{
    let mut step = ClientStep::new();
    match cmd {
        SyncClientCommand::Connect(_, _) => {},
        SyncClientCommand::Disconnect => {
            step.disconnect = true;
        },
        SyncClientCommand::TreeCreated(_) => {
            let mut events = request_keys(trees);
            let ghost events_snap = events@;
            step.outgoing.append(&mut events);
            proof {
                assert(step.outgoing@ =~= events_snap);
            }
        },
        SyncClientCommand::Change(ch) => {
            match find_tree(trees, &ch.tree) {
                Some(i) => {
                    proof {
                        lemma_tree_index_at(trees@, i as int, ch.tree@);
                        assert(trees@[i as int].wf());
                    }
                    match make_hot_sync_event(&trees[i], ch, None) {
                        Some(e) => {
                            step.outgoing.push(Event::HotSyncEvent(e));
                        },
                        None => {},
                    }
                },
                None => {
                    proof {
                        lemma_tree_index_absent(trees@, ch.tree@);
                    }
                },
            }
        },
        SyncClientCommand::CheckOut(t, k) => {
            let mut keys: Vec<GenericKey> = Vec::new();
            keys.push(*k);
            step.outgoing.push(Event::CheckOut { tree: t.clone(), keys });
        },
        SyncClientCommand::Release(t, k) => {
            let mut keys: Vec<GenericKey> = Vec::new();
            keys.push(*k);
            step.outgoing.push(Event::Return { tree: t.clone(), keys });
        },
    }
    step
}

} // verus!
