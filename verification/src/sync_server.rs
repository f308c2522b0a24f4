use core::ops::Range;
use crate::alist::alist_get;
use crate::alist::alist_has;
use crate::alist::alist_unique;
use crate::alist::lemma_alist_get_absent;
use crate::alist::lemma_alist_get_at;
use crate::alist::lemma_alist_get_push;
use crate::alist::lemma_alist_get_update;
use crate::alist::lemma_smap_get_absent;
use crate::alist::lemma_smap_get_at;
use crate::alist::lemma_smap_get_push;
use crate::alist::lemma_smap_get_update;
use crate::alist::smap_find;
use crate::alist::smap_get;
use crate::alist::smap_unique;
use crate::alist::umap_find;
use crate::borrows::spec_queue;
use crate::borrows::RecordBorrows;
use crate::common::spec_name_listed;
use crate::common::ManagedTrees;
use crate::db::TypedTree;
use crate::keys::GenericKey;
use crate::node::NodeUuid;
use crate::sync::Event;
use crate::sync::HotSyncEvent;
use crate::sync::HotSyncEventKind;
use crate::sync::RecordIteration;
use crate::sync_client::find_tree;
use crate::sync_client::lemma_tree_index_absent;
use crate::sync_client::lemma_tree_index_at;
use crate::sync_client::spec_tree_index;
use crate::sync_client::spec_trees_wf;
use crate::sync_common::collect_records;
use crate::sync_common::compare_and_request_missing_records;
use crate::sync_common::handle_incoming_record;
use crate::sync_common::spec_apply_kind;
use crate::sync_common::spec_missing_of;
use crate::sync_common::spec_tombstoned;
use crate::sync_common::spec_view_of;
use crate::sync_common::tree_overview;
use crate::sync_common::TombstoneSet;
use vstd::prelude::*;

verus! {

/// How many record ids one `GetKeySet` request hands out.
pub const KEYS_PER_REQUEST: u32 = 1000;

/// What the relay remembers about one client, keyed durably by its UUID.
pub struct ClientInfo {
    pub uuid: NodeUuid,
    /// The id ranges issued to this client, per tree; tree names pairwise
    /// distinct.
    pub key_ranges: Vec<(String, Vec<Range<u32>>)>,
    /// The trees the client has presented an overview for.
    pub subscribed_to: Vec<String>,
    pub readable_name: String,
}

/// Whether some `[start, end)` range in the list covers an id.
pub open spec fn spec_ranges_cover(ranges: Seq<Range<u32>>, id: u32) -> bool {
    exists|i: int| 0 <= i < ranges.len() && (#[trigger] ranges[i]).start <= id < ranges[i].end
}

/// Whether a client owns the id of a key in one of the ranges it was
/// issued for a tree.
pub open spec fn spec_owns_key(info: ClientInfo, tree: Seq<char>, key: GenericKey) -> bool {
    match smap_get(info.spec_key_ranges(), tree) {
        None => false,
        Some(ranges) => spec_ranges_cover(ranges@, key.id),
    }
}

impl ClientInfo {
    pub open spec fn spec_key_ranges(&self) -> Seq<(String, Vec<Range<u32>>)> {
        self.key_ranges@
    }

    pub open spec fn spec_subscribed(&self) -> Seq<String> {
        self.subscribed_to@
    }

    pub open spec fn wf(&self) -> bool {
        smap_unique(self.spec_key_ranges())
    }

    pub fn new(uuid: NodeUuid, readable_name: String) -> (r: ClientInfo)
        ensures
            r.wf(),
            r.uuid == uuid,
            r.readable_name == readable_name,
            r.spec_key_ranges() == Seq::<(String, Vec<Range<u32>>)>::empty(),
            r.spec_subscribed() == Seq::<String>::empty(),
    {
        ClientInfo {
            uuid,
            key_ranges: Vec::new(),
            subscribed_to: Vec::new(),
            readable_name,
        }
    }

    /// Whether this client was issued a range covering the key's id for
    /// the tree.
    pub fn owns_key(&self, tree: &String, key: GenericKey) -> (r: bool)
        ensures
            r == spec_owns_key(*self, tree@, key),
    {
        match smap_find(&self.key_ranges, tree) {
            Some(i) => {
                proof {
                    lemma_smap_get_at(self.key_ranges@, i as int, tree@);
                }
                let mut j: usize = 0;
                while j < self.key_ranges[i].1.len()
                    invariant
                        0 <= i < self.key_ranges@.len(),
                        smap_get(self.key_ranges@, tree@) == Some(
                            self.key_ranges@[i as int].1,
                        ),
                        0 <= j <= self.key_ranges@[i as int].1@.len(),
                        forall|x: int|
                            0 <= x < j ==> !((#[trigger] self.key_ranges@[i as int].1@[x]).start
                                <= key.id < self.key_ranges@[i as int].1@[x].end),
                    decreases self.key_ranges@[i as int].1@.len() - j,
                {
                    if self.key_ranges[i].1[j].start <= key.id && key.id
                        < self.key_ranges[i].1[j].end {
                        proof {
                            assert(spec_ranges_cover(self.key_ranges@[i as int].1@, key.id));
                        }
                        return true;
                    }
                    j = j + 1;
                }
                false
            },
            None => {
                proof {
                    lemma_smap_get_absent(self.key_ranges@, tree@);
                }
                false
            },
        }
    }

    /// Records a freshly issued range for a tree.
    pub fn add_range(&mut self, tree: &String, range: Range<u32>)
        requires
            old(self).wf(),
        ensures
            final(self).wf(),
            final(self).uuid == old(self).uuid,
            final(self).readable_name == old(self).readable_name,
            final(self).spec_subscribed() == old(self).spec_subscribed(),
            forall|t: Seq<char>, k: GenericKey|
                #[trigger] spec_owns_key(*final(self), t, k) == (spec_owns_key(*old(self), t, k)
                    || (t == tree@ && range.start <= k.id < range.end)),
    {
        match smap_find(&self.key_ranges, tree) {
            Some(i) => {
                proof {
                    lemma_smap_get_at(self.key_ranges@, i as int, tree@);
                }
                let ghost pre = self.key_ranges@;
                let ghost pre_ranges = self.key_ranges@[i as int].1;
                self.key_ranges[i].1.push(range);
                proof {
                    assert(self.key_ranges@ =~= pre.update(i as int, self.key_ranges@[i as int]));
                    assert(self.key_ranges@[i as int].0 == pre[i as int].0);
                    assert(self.key_ranges@[i as int].1@ == pre_ranges@.push(range));
                    assert forall|x: int, y: int|
                        0 <= x < y < self.key_ranges@.len() implies #[trigger] self.key_ranges@[x].0@
                        != #[trigger] self.key_ranges@[y].0@ by {
                        assert(pre[x].0@ != pre[y].0@);
                    }
                    assert forall|t: Seq<char>, k: GenericKey|
                        #[trigger] spec_owns_key(*self, t, k) == (spec_owns_key(*old(self), t, k)
                            || (t == tree@ && range.start <= k.id < range.end)) by {
                        lemma_smap_get_update(pre, i as int, self.key_ranges@[i as int], t);
                        if t == tree@ {
                            let rs = self.key_ranges@[i as int].1;
                            assert(rs@ == pre_ranges@.push(range));
                            assert(rs@[rs@.len() - 1] == range);
                            if spec_ranges_cover(pre_ranges@, k.id) {
                                let w = choose|w: int|
                                    0 <= w < pre_ranges@.len() && (#[trigger] pre_ranges@[w]).start
                                        <= k.id < pre_ranges@[w].end;
                                assert(rs@[w] == pre_ranges@[w]);
                                assert(spec_ranges_cover(rs@, k.id));
                            }
                            if range.start <= k.id < range.end {
                                assert(spec_ranges_cover(rs@, k.id));
                            }
                            if spec_ranges_cover(rs@, k.id) {
                                let w = choose|w: int|
                                    0 <= w < rs@.len() && (#[trigger] rs@[w]).start <= k.id
                                        < rs@[w].end;
                                if w < rs@.len() - 1 {
                                    assert(pre_ranges@[w] == rs@[w]);
                                    assert(spec_ranges_cover(pre_ranges@, k.id));
                                }
                            }
                        }
                    }
                }
            },
            None => {
                proof {
                    lemma_smap_get_absent(self.key_ranges@, tree@);
                }
                let ghost pre = self.key_ranges@;
                let mut ranges: Vec<Range<u32>> = Vec::new();
                ranges.push(range);
                let owned: String = tree.clone();
                self.key_ranges.push((owned, ranges));
                proof {
                    assert forall|x: int, y: int|
                        0 <= x < y < self.key_ranges@.len() implies #[trigger] self.key_ranges@[x].0@
                        != #[trigger] self.key_ranges@[y].0@ by {
                        if y < self.key_ranges@.len() - 1 {
                            assert(pre[x].0@ != pre[y].0@);
                        } else {
                            assert(pre[x].0@ != tree@);
                        }
                    }
                    assert forall|t: Seq<char>, k: GenericKey|
                        #[trigger] spec_owns_key(*self, t, k) == (spec_owns_key(*old(self), t, k)
                            || (t == tree@ && range.start <= k.id < range.end)) by {
                        lemma_smap_get_push(
                            pre,
                            self.key_ranges@[self.key_ranges@.len() - 1],
                            t,
                        );
                        lemma_smap_get_absent(pre, tree@);
                        if t == tree@ {
                            let rs = self.key_ranges@[self.key_ranges@.len() - 1].1;
                            assert(rs@.len() == 1 && rs@[0] == range);
                            if range.start <= k.id < range.end {
                                assert(spec_ranges_cover(rs@, k.id));
                            }
                            if spec_ranges_cover(rs@, k.id) {
                                let w = choose|w: int|
                                    0 <= w < rs@.len() && (#[trigger] rs@[w]).start <= k.id
                                        < rs@[w].end;
                                assert(w == 0);
                            }
                        }
                    }
                }
            },
        }
    }

    /// Marks the client as subscribed to a tree; idempotent.
    pub fn subscribe(&mut self, tree: &String)
        requires
            old(self).wf(),
        ensures
            final(self).wf(),
            final(self).uuid == old(self).uuid,
            final(self).readable_name == old(self).readable_name,
            final(self).spec_key_ranges() == old(self).spec_key_ranges(),
            spec_name_listed(final(self).spec_subscribed(), tree@),
            forall|n: Seq<char>|
                n != tree@ ==> spec_name_listed(final(self).spec_subscribed(), n)
                    == spec_name_listed(old(self).spec_subscribed(), n),
    {
        let mut i: usize = 0;
        while i < self.subscribed_to.len()
            invariant
                old(self) == self,
                old(self).wf(),
                0 <= i <= self.subscribed_to@.len(),
                forall|j: int| 0 <= j < i ==> self.subscribed_to@[j]@ != tree@,
            decreases self.subscribed_to@.len() - i,
        {
            if self.subscribed_to[i].eq(tree) {
                proof {
                    assert(self.subscribed_to@[i as int]@ == tree@);
                }
                return ;
            }
            i = i + 1;
        }
        let ghost pre = self.subscribed_to@;
        let owned: String = tree.clone();
        self.subscribed_to.push(owned);
        proof {
            assert(self.subscribed_to@[self.subscribed_to@.len() - 1]@ == tree@);
            assert forall|n: Seq<char>|
                n != tree@ implies spec_name_listed(self.subscribed_to@, n) == spec_name_listed(
                pre,
                n,
            ) by {
                if spec_name_listed(self.subscribed_to@, n) {
                    let w = choose|w: int|
                        0 <= w < self.subscribed_to@.len() && self.subscribed_to@[w]@ == n;
                    assert(w < pre.len() && pre[w]@ == n);
                }
                if spec_name_listed(pre, n) {
                    let w = choose|w: int| 0 <= w < pre.len() && pre[w]@ == n;
                    assert(self.subscribed_to@[w]@ == n);
                }
            }
        }
    }
}

/// The relay's per-connection state: a connection identifier and, after
/// `PresentSelf`, the UUID the peer presented.
pub struct ConnState {
    pub conn_id: u64,
    pub info: Option<NodeUuid>,
}

/// What the relay fans out to every connection.
#[derive(Debug)]
pub enum BroadcastEvent {
    /// A hot-sync event carrying its originating connection, which must
    /// not have it echoed back.
    Sync(HotSyncEvent),
    /// These keys' check-out queues changed.
    BorrowsChanged(String, Vec<GenericKey>),
}

/// What one relay step decided: frames for the calling connection and
/// events to fan out to every connection.
pub struct RelayStep {
    pub to_caller: Vec<Event>,
    pub broadcast: Vec<BroadcastEvent>,
}

impl RelayStep {
    fn new() -> (r: RelayStep)
        ensures
            r.to_caller@ == Seq::<Event>::empty(),
            r.broadcast@ == Seq::<BroadcastEvent>::empty(),
    {
        RelayStep { to_caller: Vec::new(), broadcast: Vec::new() }
    }
}

/// The relay's shared state: its identity, the stored records per tree,
/// the registered clients, per-tree key allocation counters, the
/// authoritative check-out queues, and the tombstone set.
pub struct RelayState {
    self_uuid: NodeUuid,
    trees: Vec<TypedTree>,
    managed: ManagedTrees,
    clients: Vec<(NodeUuid, ClientInfo)>,
    tree_infos: Vec<(String, u32)>,
    borrows: RecordBorrows,
    tombstones: TombstoneSet,
}

impl RelayState {
    pub closed spec fn spec_uuid(&self) -> NodeUuid {
        self.self_uuid
    }

    pub closed spec fn spec_trees(&self) -> Seq<TypedTree> {
        self.trees@
    }

    pub closed spec fn spec_clients(&self) -> Seq<(NodeUuid, ClientInfo)> {
        self.clients@
    }

    pub closed spec fn spec_tree_infos(&self) -> Seq<(String, u32)> {
        self.tree_infos@
    }

    pub closed spec fn spec_borrows(&self) -> RecordBorrows {
        self.borrows
    }

    pub closed spec fn spec_tombstones(&self) -> Seq<(String, GenericKey)> {
        self.tombstones@
    }

    pub closed spec fn spec_managed(&self) -> ManagedTrees {
        self.managed
    }

    pub open spec fn wf(&self) -> bool {
        &&& spec_trees_wf(self.spec_trees())
        &&& alist_unique(self.spec_clients())
        &&& forall|i: int|
            0 <= i < self.spec_clients().len() ==> (#[trigger] self.spec_clients()[i]).1.wf()
                && self.spec_clients()[i].1.uuid == self.spec_clients()[i].0
        &&& smap_unique(self.spec_tree_infos())
        &&& self.spec_managed().wf()
        &&& self.spec_borrows().wf()
    }

    pub fn new(self_uuid: NodeUuid) -> (r: RelayState)
        ensures
            r.wf(),
            r.spec_uuid() == self_uuid,
            r.spec_trees() == Seq::<TypedTree>::empty(),
            r.spec_clients() == Seq::<(NodeUuid, ClientInfo)>::empty(),
            r.spec_tree_infos() == Seq::<(String, u32)>::empty(),
            r.spec_borrows()@.len() == 0,
            r.spec_tombstones() == Seq::<(String, GenericKey)>::empty(),
    {
        RelayState {
            self_uuid,
            trees: Vec::new(),
            managed: ManagedTrees::new(),
            clients: Vec::new(),
            tree_infos: Vec::new(),
            borrows: RecordBorrows::new(),
            tombstones: TombstoneSet::new(),
        }
    }

    pub fn self_uuid(&self) -> (r: NodeUuid)
        ensures
            r == self.spec_uuid(),
    {
        self.self_uuid
    }

    /// The record of one registered client.
    pub open spec fn spec_client_of(&self, uuid: NodeUuid) -> Option<ClientInfo> {
        alist_get(self.spec_clients(), uuid)
    }

    /// Whether a (tree, key) pair is tombstoned.
    pub open spec fn spec_is_tombstoned(&self, tree: Seq<char>, key: GenericKey) -> bool {
        spec_tombstoned(self.spec_tombstones(), tree, key)
    }
}

/// Copies a hot-sync payload; the copy has the same mathematical value.
pub fn clone_event_kind(kind: &HotSyncEventKind) -> (r: HotSyncEventKind)
    ensures
        r@ == kind@,
{
    match kind {
        HotSyncEventKind::MetaChanged { meta, meta_iteration } => HotSyncEventKind::MetaChanged {
            meta: crate::db::clone_meta(meta),
            meta_iteration: *meta_iteration,
        },
        HotSyncEventKind::CreatedOrChanged {
            meta,
            meta_iteration,
            data,
            data_evolution,
            data_iteration,
        } => HotSyncEventKind::CreatedOrChanged {
            meta: crate::db::clone_meta(meta),
            meta_iteration: *meta_iteration,
            data: crate::db::copy_bytes(data),
            data_evolution: *data_evolution,
            data_iteration: *data_iteration,
        },
        HotSyncEventKind::Removed => HotSyncEventKind::Removed,
    }
}

/// Nothing about the relay changed.
pub open spec fn spec_relay_unchanged(pre: RelayState, post: RelayState) -> bool {
    &&& post.spec_uuid() == pre.spec_uuid()
    &&& post.spec_trees() == pre.spec_trees()
    &&& post.spec_clients() == pre.spec_clients()
    &&& post.spec_tree_infos() == pre.spec_tree_infos()
    &&& post.spec_borrows() == pre.spec_borrows()
    &&& post.spec_tombstones() == pre.spec_tombstones()
    &&& post.spec_managed() == pre.spec_managed()
}

/// Whether the relay must drop an inbound hot-sync event: a first-ever
/// create (meta iteration zero) whose key id the presenting client does
/// not own, or a non-removal touching a tombstoned key.
pub open spec fn spec_hot_sync_dropped(pre: RelayState, u: NodeUuid, hse: HotSyncEvent) -> bool {
    match hse.kind@ {
        crate::sync_common::HotSyncKindView::Removed => false,
        crate::sync_common::HotSyncKindView::MetaChanged { meta_iteration, .. } => (match pre.spec_client_of(u) {
            Some(info) => meta_iteration == 0 && !spec_owns_key(info, hse.tree_name@, hse.key),
            None => true,
        }) || pre.spec_is_tombstoned(hse.tree_name@, hse.key),
        crate::sync_common::HotSyncKindView::CreatedOrChanged { meta_iteration, .. } => (match pre.spec_client_of(
            u,
        ) {
            Some(info) => meta_iteration == 0 && !spec_owns_key(info, hse.tree_name@, hse.key),
            None => true,
        }) || pre.spec_is_tombstoned(hse.tree_name@, hse.key),
    }
}

/// The record stored under a key of a named tree in a list of trees.
pub open spec fn spec_trees_record(
    trees: Seq<TypedTree>,
    tree: Seq<char>,
    key: GenericKey,
) -> Option<crate::record::Record> {
    match spec_tree_index(trees, tree) {
        Some(i) => trees[i].spec_get(key),
        None => None,
    }
}

/// The record stored for a key of a named tree, across the whole relay.
pub open spec fn spec_relay_record(
    pre: RelayState,
    tree: Seq<char>,
    key: GenericKey,
) -> Option<crate::record::Record> {
    spec_trees_record(pre.spec_trees(), tree, key)
}

/// What one inbound hot-sync event does to the relay. A dropped event
/// changes nothing and produces nothing: in particular a forged first
/// create never reaches the store and never propagates, and a tombstoned
/// key can only be removed further. An accepted event is applied under
/// the common last-writer-wins rule and re-broadcast carrying its source
/// connection; an accepted removal also writes the tombstone and evicts
/// the key's check-out queue.
pub open spec fn spec_hot_sync_post(
    pre: RelayState,
    post: RelayState,
    conn: ConnState,
    hse: HotSyncEvent,
    step: RelayStep,
) -> bool {
    match conn.info {
        None => spec_relay_unchanged(pre, post) && step.to_caller@.len() == 0
            && step.broadcast@.len() == 0,
        Some(u) => if spec_hot_sync_dropped(pre, u, hse) {
            spec_relay_unchanged(pre, post) && step.to_caller@.len() == 0 && step.broadcast@.len()
                == 0
        } else {
            &&& post.spec_uuid() == pre.spec_uuid()
            &&& post.spec_clients() == pre.spec_clients()
            &&& post.spec_tree_infos() == pre.spec_tree_infos()
            &&& post.spec_managed() == pre.spec_managed()
            &&& spec_view_of(spec_relay_record(post, hse.tree_name@, hse.key)) == spec_apply_kind(
                hse.key,
                spec_view_of(spec_relay_record(pre, hse.tree_name@, hse.key)),
                hse.kind@,
            )
            &&& forall|t: Seq<char>, k: GenericKey|
                !(t == hse.tree_name@ && k == hse.key) ==> #[trigger] spec_relay_record(post, t, k)
                    == spec_relay_record(pre, t, k)
            &&& (hse.kind@ is Removed ==> {
                &&& post.spec_is_tombstoned(hse.tree_name@, hse.key)
                &&& forall|t: Seq<char>, k: GenericKey|
                    !(t == hse.tree_name@ && k == hse.key) ==> #[trigger] post.spec_is_tombstoned(
                        t,
                        k,
                    ) == pre.spec_is_tombstoned(t, k)
                &&& forall|t: Seq<char>, k: GenericKey|
                    #[trigger] spec_queue(post.spec_borrows(), t, k) == if t == hse.tree_name@ && k
                        == hse.key {
                        Seq::<NodeUuid>::empty()
                    } else {
                        spec_queue(pre.spec_borrows(), t, k)
                    }
            })
            &&& (!(hse.kind@ is Removed) ==> post.spec_tombstones() == pre.spec_tombstones()
                && post.spec_borrows() == pre.spec_borrows())
            &&& step.to_caller@.len() == 0
            &&& step.broadcast@.len() == 1
            &&& (step.broadcast@[0] matches BroadcastEvent::Sync(e) && e.tree_name@
                == hse.tree_name@ && e.key == hse.key && e.kind@ == hse.kind@ && e.source_addr
                == Some(conn.conn_id))
        },
    }
}

impl RelayState {
    /// Applies one inbound hot-sync event after the relay's authorization
    /// and tombstone checks, exactly as `spec_hot_sync_post` says.
    pub fn process_hot_sync(&mut self, conn: &ConnState, hse: &HotSyncEvent) -> (r: RelayStep)
        requires
            old(self).wf(),
        ensures
            final(self).wf(),
            spec_hot_sync_post(*old(self), *final(self), *conn, *hse, r),
    {
        let step = RelayStep::new();
        let u = match conn.info {
            Some(u) => u,
            None => {
                return step;
            },
        };
        let is_removed = match &hse.kind {
            HotSyncEventKind::Removed => true,
            _ => false,
        };
        if !is_removed {
            let mit0 = match &hse.kind {
                HotSyncEventKind::MetaChanged { meta_iteration, .. } => *meta_iteration == 0,
                HotSyncEventKind::CreatedOrChanged { meta_iteration, .. } => *meta_iteration == 0,
                HotSyncEventKind::Removed => false,
            };
            let owns = match umap_find(&self.clients, u) {
                Some(ci) => {
                    proof {
                        lemma_alist_get_at(self.clients@, ci as int, u);
                    }
                    self.clients[ci].1.owns_key(&hse.tree_name, hse.key)
                },
                None => {
                    proof {
                        lemma_alist_get_absent(self.clients@, u);
                    }
                    return step;
                },
            };
            if mit0 && !owns {
                return step;
            }
            if self.tombstones.contains(&hse.tree_name, hse.key) {
                return step;
            }
            let ti = match find_tree(&self.trees, &hse.tree_name) {
                Some(i) => {
                    proof {
                        lemma_tree_index_at(self.trees@, i as int, hse.tree_name@);
                    }
                    i
                },
                None => {
                    proof {
                        lemma_tree_index_absent(self.trees@, hse.tree_name@);
                    }
                    let t = TypedTree::new(
                        hse.tree_name.clone(),
                        false,
                        self.self_uuid,
                        String::new(),
                    );
                    let ghost pre_trees = self.trees@;
                    self.trees.push(t);
                    proof {
                        assert forall|j: int|
                            0 <= j < self.trees@.len() implies (#[trigger] self.trees@[j]).wf() by {
                            if j < self.trees@.len() - 1 {
                                assert(self.trees@[j] == pre_trees[j]);
                            }
                        }
                        lemma_tree_index_at(
                            self.trees@,
                            self.trees@.len() - 1,
                            hse.tree_name@,
                        );
                    }
                    self.trees.len() - 1
                },
            };
            let ghost trees_before_apply = self.trees@;
            proof {
                assert(trees_before_apply[ti as int].wf());
            }
            handle_incoming_record(&mut self.trees[ti], hse);
            proof {
                assert forall|j: int|
                    0 <= j < self.trees@.len() implies (#[trigger] self.trees@[j]).wf() by {
                    if j != ti {
                        assert(self.trees@[j] == trees_before_apply[j]);
                    }
                }
                lemma_tree_index_at(self.trees@, ti as int, hse.tree_name@);
                assert forall|t: Seq<char>, k: GenericKey|
                    !(t == hse.tree_name@ && k == hse.key) implies #[trigger] spec_relay_record(
                    *self,
                    t,
                    k,
                ) == spec_relay_record(*old(self), t, k) by {
                    lemma_relay_record_frame(
                        old(self).spec_trees(),
                        trees_before_apply,
                        self.trees@,
                        ti as int,
                        hse.tree_name@,
                        hse.key,
                        t,
                        k,
                    );
                }
            }
            let ev = HotSyncEvent {
                tree_name: hse.tree_name.clone(),
                key: hse.key,
                source_addr: Some(conn.conn_id),
                kind: clone_event_kind(&hse.kind),
            };
            let mut out = RelayStep::new();
            out.broadcast.push(BroadcastEvent::Sync(ev));
            out
        } else {
            self.tombstones.insert(&hse.tree_name, hse.key);
            self.borrows.evict(&hse.tree_name, hse.key);
            match find_tree(&self.trees, &hse.tree_name) {
                Some(ti) => {
                    proof {
                        lemma_tree_index_at(self.trees@, ti as int, hse.tree_name@);
                    }
                    let ghost trees_before_apply = self.trees@;
                    handle_incoming_record(&mut self.trees[ti], hse);
                    proof {
                        assert forall|j: int|
                            0 <= j < self.trees@.len() implies (#[trigger] self.trees@[j]).wf() by {
                            if j != ti {
                                assert(self.trees@[j] == trees_before_apply[j]);
                            }
                        }
                        lemma_tree_index_at(self.trees@, ti as int, hse.tree_name@);
                        assert forall|t: Seq<char>, k: GenericKey|
                            !(t == hse.tree_name@ && k == hse.key)
                            implies #[trigger] spec_relay_record(*self, t, k) == spec_relay_record(
                            *old(self),
                            t,
                            k,
                        ) by {
                            lemma_relay_record_frame(
                                old(self).spec_trees(),
                                trees_before_apply,
                                self.trees@,
                                ti as int,
                                hse.tree_name@,
                                hse.key,
                                t,
                                k,
                            );
                        }
                    }
                },
                None => {
                    proof {
                        lemma_tree_index_absent(self.trees@, hse.tree_name@);
                    }
                },
            }
            let ev = HotSyncEvent {
                tree_name: hse.tree_name.clone(),
                key: hse.key,
                source_addr: Some(conn.conn_id),
                kind: clone_event_kind(&hse.kind),
            };
            let mut out = RelayStep::new();
            out.broadcast.push(BroadcastEvent::Sync(ev));
            out
        }
    }
}

/// Mutating one tree at its index leaves the record of every other
/// (tree, key) pair unchanged, also when that tree was freshly appended.
pub proof fn lemma_relay_record_frame(
    orig: Seq<TypedTree>,
    mid: Seq<TypedTree>,
    post: Seq<TypedTree>,
    ti: int,
    name: Seq<char>,
    key: GenericKey,
    t: Seq<char>,
    k: GenericKey,
)
    requires
        0 <= ti < mid.len(),
        mid == orig || (mid == orig.push(mid[ti]) && ti == orig.len() && mid[ti].spec_entries()
            == Seq::<(GenericKey, crate::record::Record)>::empty()),
        mid[ti].spec_name() == name,
        post.len() == mid.len(),
        forall|j: int| 0 <= j < mid.len() && j != ti ==> post[j] == mid[j],
        post[ti].spec_name() == name,
        forall|k2: GenericKey| k2 != key ==> post[ti].spec_get(k2) == mid[ti].spec_get(k2),
        spec_tree_index(mid, name) == Some(ti),
        spec_tree_index(post, name) == Some(ti),
        !(t == name && k == key),
    ensures
        spec_trees_record(post, t, k) == spec_trees_record(orig, t, k),
{
    lemma_tree_index_same_names(mid, post);
    if mid != orig {
        lemma_tree_index_push(orig, mid, t);
    }
    match spec_tree_index(post, t) {
        Some(i) => {
            lemma_tree_index_props(post, t, i);
            assert(spec_tree_index(mid, t) == Some(i));
            if i == ti {
                assert(post[ti].spec_name() == t);
                assert(t == name);
                assert(k != key);
                assert(post[ti].spec_get(k) == mid[ti].spec_get(k));
                if mid == orig {
                    assert(spec_tree_index(orig, t) == Some(ti));
                } else {
                    match spec_tree_index(orig, t) {
                        Some(oi) => {
                            lemma_tree_index_props(orig, t, oi);
                            assert(false);
                        },
                        None => {},
                    }
                    assert(mid[ti].spec_get(k) is None);
                }
            } else {
                assert(post[i] == mid[i]);
                if mid == orig {
                } else {
                    match spec_tree_index(orig, t) {
                        Some(oi) => {
                            assert(spec_tree_index(mid, t) == Some(oi));
                        },
                        None => {
                            assert(spec_tree_index(mid, t) is None || spec_tree_index(mid, t)
                                == Some(orig.len() as int));
                            assert(false);
                        },
                    }
                    assert(mid[i] == orig[i]);
                }
            }
        },
        None => {
            assert(spec_tree_index(mid, t) is None);
            if mid != orig {
                match spec_tree_index(orig, t) {
                    Some(oi) => {
                        assert(spec_tree_index(mid, t) == Some(oi));
                        assert(false);
                    },
                    None => {},
                }
            }
        },
    }
}

/// Sequences of trees with equal names elementwise have equal name
/// indexes.
pub proof fn lemma_tree_index_same_names(a: Seq<TypedTree>, b: Seq<TypedTree>)
    requires
        a.len() == b.len(),
        forall|j: int| 0 <= j < a.len() ==> (#[trigger] a[j]).spec_name() == b[j].spec_name(),
    ensures
        forall|n: Seq<char>| #[trigger] spec_tree_index(a, n) == spec_tree_index(b, n),
    decreases a.len(),
{
    if a.len() > 0 {
        assert forall|j: int|
            0 <= j < a.drop_first().len() implies (#[trigger] a.drop_first()[j]).spec_name()
            == b.drop_first()[j].spec_name() by {
            assert(a.drop_first()[j] == a[j + 1]);
            assert(b.drop_first()[j] == b[j + 1]);
        }
        lemma_tree_index_same_names(a.drop_first(), b.drop_first());
        assert forall|n: Seq<char>| #[trigger] spec_tree_index(a, n) == spec_tree_index(b, n) by {
            assert(spec_tree_index(a.drop_first(), n) == spec_tree_index(b.drop_first(), n));
        }
    }
}

/// Appending a tree does not change the index of any other name that was
/// already present, and resolves an absent name only to the new slot.
pub proof fn lemma_tree_index_push(orig: Seq<TypedTree>, mid: Seq<TypedTree>, t: Seq<char>)
    requires
        mid == orig.push(mid[mid.len() - 1]),
        mid.len() == orig.len() + 1,
    ensures
        spec_tree_index(orig, t) is Some ==> spec_tree_index(mid, t) == spec_tree_index(orig, t),
        spec_tree_index(orig, t) is None ==> (spec_tree_index(mid, t) is None || spec_tree_index(
            mid,
            t,
        ) == Some(orig.len() as int)),
    decreases orig.len(),
{
    if orig.len() == 0 {
        assert(mid.drop_first() =~= Seq::<TypedTree>::empty());
    } else {
        assert(mid.drop_first() =~= orig.drop_first().push(mid[mid.len() - 1]));
        lemma_tree_index_push(orig.drop_first(), mid.drop_first(), t);
        assert(mid[0] == orig[0]);
    }
}

/// The index a name resolves to holds a tree of that name.
pub proof fn lemma_tree_index_props(trees: Seq<TypedTree>, n: Seq<char>, i: int)
    requires
        spec_tree_index(trees, n) == Some(i),
    ensures
        0 <= i < trees.len(),
        trees[i].spec_name() == n,
    decreases trees.len(),
{
    if trees.len() > 0 && trees[0].spec_name() != n {
        lemma_tree_index_props(trees.drop_first(), n, i - 1);
    }
}

/// The check-out frames announcing a relay's queues: every frame carries
/// one stored non-empty queue, and every non-empty queue of the table has
/// a frame.
pub open spec fn spec_borrow_frames_ok(state: RelayState, frames: Seq<Event>) -> bool {
    &&& forall|x: int|
        0 <= x < frames.len() ==> ((#[trigger] frames[x]) matches Event::CheckedOut {
            tree,
            key,
            queue,
        } && queue@ == spec_queue(state.spec_borrows(), tree@, key) && queue@.len() > 0)
    &&& forall|j: int|
        0 <= j < state.spec_borrows()@.len() && (#[trigger] state.spec_borrows()@[j]).1@.len() > 0
            ==> exists|x: int|
            0 <= x < frames.len() && ((#[trigger] frames[x]) matches Event::CheckedOut {
                tree,
                key,
                queue,
            } && tree@ == state.spec_borrows()@[j].0.0@ && key == state.spec_borrows()@[j].0.1
                && queue@ == state.spec_borrows()@[j].1@)
}

/// What answering a record request produces: nothing is broadcast; every
/// frame streams one requested, stored record with the caller as its
/// source; and every requested key the relay stores is streamed.
pub open spec fn spec_request_records_post(
    state: RelayState,
    conn: ConnState,
    tree: Seq<char>,
    keys: Seq<GenericKey>,
    step: RelayStep,
) -> bool {
    &&& step.broadcast@.len() == 0
    &&& forall|x: int|
        0 <= x < step.to_caller@.len() ==> ((#[trigger] step.to_caller@[x]) matches Event::HotSyncEvent(
            e,
        ) && e.tree_name@ == tree && keys.contains(e.key) && e.source_addr == Some(conn.conn_id))
    &&& match spec_tree_index(state.spec_trees(), tree) {
        Some(i) => forall|j: int|
            0 <= j < keys.len() && state.spec_trees()[i].spec_get(#[trigger] keys[j]) is Some
                ==> exists|x: int|
                0 <= x < step.to_caller@.len() && ((
                #[trigger] step.to_caller@[x]) matches Event::HotSyncEvent(e) && e.key == keys[j]),
        None => step.to_caller@.len() == 0,
    }
}

/// What handling `PresentSelf` does: the connection remembers the
/// presented UUID, the client is registered durably (or recognized, with
/// its record untouched), nothing else of the relay moves, and the caller
/// is answered with one overview per tree followed by every non-empty
/// check-out queue.
pub open spec fn spec_present_self_post(
    pre: RelayState,
    post: RelayState,
    pre_conn: ConnState,
    post_conn: ConnState,
    uuid: NodeUuid,
    step: RelayStep,
) -> bool {
    &&& post.spec_uuid() == pre.spec_uuid()
    &&& post.spec_trees() == pre.spec_trees()
    &&& post.spec_tree_infos() == pre.spec_tree_infos()
    &&& post.spec_borrows() == pre.spec_borrows()
    &&& post.spec_tombstones() == pre.spec_tombstones()
    &&& post.spec_managed() == pre.spec_managed()
    &&& post_conn.conn_id == pre_conn.conn_id
    &&& post_conn.info == Some(uuid)
    &&& alist_has(post.spec_clients(), uuid)
    &&& (alist_has(pre.spec_clients(), uuid) ==> post.spec_clients() == pre.spec_clients())
    &&& forall|u: NodeUuid|
        u != uuid ==> #[trigger] alist_get(post.spec_clients(), u) == alist_get(
            pre.spec_clients(),
            u,
        )
    &&& step.broadcast@.len() == 0
    &&& step.to_caller@.len() >= pre.spec_trees().len()
    &&& forall|t: int|
        0 <= t < pre.spec_trees().len() ==> crate::sync_client::spec_is_overview_event(
            step.to_caller@[t],
            #[trigger] pre.spec_trees()[t],
        )
    &&& spec_borrow_frames_ok(pre, step.to_caller@.skip(pre.spec_trees().len() as int))
}

/// Keys pairwise distinct.
pub open spec fn spec_keys_distinct(keys: Seq<GenericKey>) -> bool {
    forall|a: int, b: int| 0 <= a < b < keys.len() ==> keys[a] != keys[b]
}

impl RelayState {
    /// One `CheckedOut` frame per key whose queue is not empty.
    pub fn current_borrows_events(&self) -> (r: Vec<Event>)
        requires
            self.wf(),
        ensures
            spec_borrow_frames_ok(*self, r@),
    {
        let mut out: Vec<Event> = Vec::new();
        let mut i: usize = 0;
        while i < self.borrows.entries_len()
            invariant
                self.wf(),
                0 <= i <= self.spec_borrows()@.len(),
                forall|x: int|
                    0 <= x < out@.len() ==> ((#[trigger] out@[x]) matches Event::CheckedOut {
                        tree,
                        key,
                        queue,
                    } && queue@ == spec_queue(self.spec_borrows(), tree@, key) && queue@.len()
                        > 0),
                forall|j: int|
                    0 <= j < i && (#[trigger] self.spec_borrows()@[j]).1@.len() > 0 ==> exists|
                        x: int,
                    |
                        0 <= x < out@.len() && ((#[trigger] out@[x]) matches Event::CheckedOut {
                            tree,
                            key,
                            queue,
                        } && tree@ == self.spec_borrows()@[j].0.0@ && key
                            == self.spec_borrows()@[j].0.1 && queue@
                            == self.spec_borrows()@[j].1@),
            decreases self.spec_borrows()@.len() - i,
        {
            let entry = self.borrows.entry_at(i);
            let ghost pre_out = out@;
            if entry.1.len() > 0 {
                let tree = entry.0.0.clone();
                let key = entry.0.1;
                let queue = crate::borrows::copy_queue(&entry.1);
                proof {
                    crate::borrows::lemma_bq_get_at(
                        self.spec_borrows()@,
                        i as int,
                        self.spec_borrows()@[i as int].0.0@,
                        self.spec_borrows()@[i as int].0.1,
                    );
                }
                out.push(Event::CheckedOut { tree, key, queue });
            }
            proof {
                assert forall|j: int|
                    0 <= j < i + 1 && (#[trigger] self.spec_borrows()@[j]).1@.len() > 0
                    implies exists|x: int|
                    0 <= x < out@.len() && ((#[trigger] out@[x]) matches Event::CheckedOut {
                        tree,
                        key,
                        queue,
                    } && tree@ == self.spec_borrows()@[j].0.0@ && key
                        == self.spec_borrows()@[j].0.1 && queue@ == self.spec_borrows()@[j].1@) by {
                    if j < i {
                        let w = choose|w: int|
                            0 <= w < pre_out.len() && ((#[trigger] pre_out[w]) matches Event::CheckedOut {
                                tree,
                                key,
                                queue,
                            } && tree@ == self.spec_borrows()@[j].0.0@ && key
                                == self.spec_borrows()@[j].0.1 && queue@
                                == self.spec_borrows()@[j].1@);
                        assert(out@[w] == pre_out[w]);
                    } else {
                        assert(out@[out@.len() - 1] matches Event::CheckedOut {
                            tree,
                            key,
                            queue,
                        } && tree@ == self.spec_borrows()@[j].0.0@ && key
                            == self.spec_borrows()@[j].0.1 && queue@
                            == self.spec_borrows()@[j].1@);
                    }
                }
            }
            i = i + 1;
        }
        out
    }

    /// Registers (or recognizes) a presenting client, remembers it on the
    /// connection, and answers with an overview of every tree and the
    /// current non-empty check-out queues.
    pub fn process_present_self(
        &mut self,
        conn: &mut ConnState,
        uuid: NodeUuid,
        readable_name: &String,
    ) -> (r: RelayStep)
        requires
            old(self).wf(),
        ensures
            final(self).wf(),
            spec_present_self_post(*old(self), *final(self), *old(conn), *final(conn), uuid, r),
    {
        conn.info = Some(uuid);
        match umap_find(&self.clients, uuid) {
            Some(i) => {
                proof {
                    lemma_alist_get_at(self.clients@, i as int, uuid);
                }
            },
            None => {
                proof {
                    lemma_alist_get_absent(self.clients@, uuid);
                }
                let ghost pre = self.clients@;
                let info = ClientInfo::new(uuid, readable_name.clone());
                self.clients.push((uuid, info));
                proof {
                    assert forall|u: NodeUuid|
                        u != uuid implies #[trigger] alist_get(self.clients@, u) == alist_get(
                        pre,
                        u,
                    ) by {
                        lemma_alist_get_push(pre, self.clients@[self.clients@.len() - 1], u);
                    }
                    lemma_alist_get_push(pre, self.clients@[self.clients@.len() - 1], uuid);
                    assert forall|x: int, y: int|
                        0 <= x < y < self.clients@.len() implies (#[trigger] self.clients@[x]).0
                        != (#[trigger] self.clients@[y]).0 by {
                        if y < self.clients@.len() - 1 {
                            assert(pre[x].0 != pre[y].0);
                        } else {
                            if pre[x].0 == uuid {
                                assert(alist_has(pre, uuid)) by {
                                    crate::alist::lemma_alist_get_at(pre, x, uuid);
                                }
                            }
                        }
                    }
                }
            },
        }
        let mut step = RelayStep::new();
        let mut t: usize = 0;
        while t < self.trees.len()
            invariant
                self.wf(),
                0 <= t <= self.spec_trees().len(),
                step.to_caller@.len() == t,
                step.broadcast@.len() == 0,
                forall|j: int|
                    0 <= j < t ==> crate::sync_client::spec_is_overview_event(
                        step.to_caller@[j],
                        #[trigger] self.spec_trees()[j],
                    ),
            decreases self.spec_trees().len() - t,
        {
            proof {
                assert(self.spec_trees()[t as int].wf());
            }
            let ov = tree_overview(&self.trees[t]);
            let ghost pre_out = step.to_caller@;
            step.to_caller.push(
                Event::TreeOverview { tree: self.trees[t].tree_name().clone(), records: ov },
            );
            proof {
                assert(crate::sync_client::spec_is_overview_event(
                    step.to_caller@[t as int],
                    self.spec_trees()[t as int],
                ));
                assert forall|j: int|
                    0 <= j < t + 1 implies crate::sync_client::spec_is_overview_event(
                    step.to_caller@[j],
                    #[trigger] self.spec_trees()[j],
                ) by {
                    if j < t {
                        assert(step.to_caller@[j] == pre_out[j]);
                    }
                }
            }
            t = t + 1;
        }
        let mut borrow_events = self.current_borrows_events();
        let ghost borrows_snap = borrow_events@;
        let ghost mid = step.to_caller@;
        step.to_caller.append(&mut borrow_events);
        proof {
            assert(step.to_caller@ == mid + borrows_snap);
            assert(step.to_caller@.skip(self.spec_trees().len() as int) =~= borrows_snap);
            assert(spec_borrow_frames_ok(
                *old(self),
                step.to_caller@.skip(self.spec_trees().len() as int),
            )) by {
                assert(old(self).spec_borrows() == self.spec_borrows());
            }
        }
        step
    }
}

/// What handling `GetKeySet` does: a presented client asking for a
/// registered tree (while the counter has room) advances the per-tree
/// counter by one stride, has the fresh range recorded against it, and is
/// answered with exactly that `KeySet`; in every other case nothing moves
/// and nothing is sent.
pub open spec fn spec_get_key_set_post(
    pre: RelayState,
    post: RelayState,
    conn: ConnState,
    tree: Seq<char>,
    step: RelayStep,
) -> bool {
    &&& post.spec_uuid() == pre.spec_uuid()
    &&& post.spec_trees() == pre.spec_trees()
    &&& post.spec_borrows() == pre.spec_borrows()
    &&& post.spec_tombstones() == pre.spec_tombstones()
    &&& post.spec_managed() == pre.spec_managed()
    &&& step.broadcast@.len() == 0
    &&& match conn.info {
        None => spec_relay_unchanged(pre, post) && step.to_caller@.len() == 0,
        Some(u) => match (smap_get(pre.spec_tree_infos(), tree), alist_get(
            pre.spec_clients(),
            u,
        )) {
            (Some(next), Some(info)) => if next <= u32::MAX - KEYS_PER_REQUEST {
                &&& forall|n: Seq<char>|
                    #[trigger] smap_get(post.spec_tree_infos(), n) == if n == tree {
                        Some((next + KEYS_PER_REQUEST) as u32)
                    } else {
                        smap_get(pre.spec_tree_infos(), n)
                    }
                &&& alist_get(post.spec_clients(), u) matches Some(info2) && {
                    &&& info2.uuid == info.uuid
                    &&& forall|t: Seq<char>, k: GenericKey|
                        #[trigger] spec_owns_key(info2, t, k) == (spec_owns_key(info, t, k) || (t
                            == tree && next <= k.id < next + KEYS_PER_REQUEST))
                }
                &&& forall|u2: NodeUuid|
                    u2 != u ==> #[trigger] alist_get(post.spec_clients(), u2) == alist_get(
                        pre.spec_clients(),
                        u2,
                    )
                &&& step.to_caller@.len() == 1
                &&& (step.to_caller@[0] matches Event::KeySet { tree: t, keys } && t@ == tree
                    && keys.start == next && keys.end == next + KEYS_PER_REQUEST)
            } else {
                spec_relay_unchanged(pre, post) && step.to_caller@.len() == 0
            },
            _ => spec_relay_unchanged(pre, post) && step.to_caller@.len() == 0,
        },
    }
}

impl RelayState {
    /// Issues a fresh id range for a tree: the per-tree counter advances
    /// by one stride, the range is recorded against the presenting
    /// client, and a `KeySet` frame answers. Nothing is issued to a
    /// connection that never presented itself, for an unregistered tree,
    /// or when the counter would overflow.
    pub fn process_get_key_set(&mut self, conn: &ConnState, tree: &String) -> (r: RelayStep)
        requires
            old(self).wf(),
        ensures
            final(self).wf(),
            spec_get_key_set_post(*old(self), *final(self), *conn, tree@, r),
    {
        let step = RelayStep::new();
        let u = match conn.info {
            Some(u) => u,
            None => {
                return step;
            },
        };
        let ci = match umap_find(&self.clients, u) {
            Some(ci) => {
                proof {
                    lemma_alist_get_at(self.clients@, ci as int, u);
                }
                ci
            },
            None => {
                proof {
                    lemma_alist_get_absent(self.clients@, u);
                }
                return step;
            },
        };
        let ti = match smap_find(&self.tree_infos, tree) {
            Some(ti) => {
                proof {
                    lemma_smap_get_at(self.tree_infos@, ti as int, tree@);
                }
                ti
            },
            None => {
                proof {
                    lemma_smap_get_absent(self.tree_infos@, tree@);
                }
                return step;
            },
        };
        let next = self.tree_infos[ti].1;
        if next > u32::MAX - KEYS_PER_REQUEST {
            return step;
        }
        let ghost pre_infos = self.tree_infos@;
        let name_copy = self.tree_infos[ti].0.clone();
        self.tree_infos[ti] = (name_copy, next + KEYS_PER_REQUEST);
        proof {
            assert(self.tree_infos@ =~= pre_infos.update(ti as int, self.tree_infos@[ti as int]));
            assert(self.tree_infos@[ti as int].0@ == tree@);
            assert forall|n: Seq<char>|
                #[trigger] smap_get(self.tree_infos@, n) == if n == tree@ {
                    Some((next + KEYS_PER_REQUEST) as u32)
                } else {
                    smap_get(pre_infos, n)
                } by {
                lemma_smap_get_update(pre_infos, ti as int, self.tree_infos@[ti as int], n);
            }
            assert forall|x: int, y: int|
                0 <= x < y < self.tree_infos@.len() implies #[trigger] self.tree_infos@[x].0@
                != #[trigger] self.tree_infos@[y].0@ by {
                assert(pre_infos[x].0@ != pre_infos[y].0@);
            }
        }
        let ghost pre_clients = self.clients@;
        self.clients[ci].1.add_range(tree, next..(next + KEYS_PER_REQUEST));
        proof {
            assert(self.clients@ =~= pre_clients.update(ci as int, self.clients@[ci as int]));
            assert(self.clients@[ci as int].0 == u);
            assert forall|u2: NodeUuid|
                u2 != u implies #[trigger] alist_get(self.clients@, u2) == alist_get(
                pre_clients,
                u2,
            ) by {
                lemma_alist_get_update(pre_clients, ci as int, self.clients@[ci as int], u2);
            }
            lemma_alist_get_update(pre_clients, ci as int, self.clients@[ci as int], u);
            assert forall|x: int, y: int|
                0 <= x < y < self.clients@.len() implies (#[trigger] self.clients@[x]).0
                != (#[trigger] self.clients@[y]).0 by {
                assert(pre_clients[x].0 != pre_clients[y].0);
            }
            assert forall|i: int|
                0 <= i < self.clients@.len() implies (#[trigger] self.clients@[i]).1.wf()
                && self.clients@[i].1.uuid == self.clients@[i].0 by {
                if i != ci {
                    assert(self.clients@[i] == pre_clients[i]);
                }
            }
        }
        let mut out = RelayStep::new();
        out.to_caller.push(
            Event::KeySet { tree: tree.clone(), keys: next..(next + KEYS_PER_REQUEST) },
        );
        out
    }
}

/// Creating an empty tree for a new name leaves every (tree, key) record
/// lookup unchanged.
pub proof fn lemma_relay_record_after_create(
    orig: Seq<TypedTree>,
    post: Seq<TypedTree>,
    name: Seq<char>,
)
    requires
        post == orig.push(post[post.len() - 1]),
        post.len() == orig.len() + 1,
        post[post.len() - 1].spec_name() == name,
        post[post.len() - 1].spec_entries() == Seq::<(GenericKey, crate::record::Record)>::empty(),
        spec_tree_index(orig, name) is None,
    ensures
        forall|t: Seq<char>, k: GenericKey|
            #[trigger] spec_trees_record(post, t, k) == spec_trees_record(orig, t, k),
{
    assert forall|t: Seq<char>, k: GenericKey|
        #[trigger] spec_trees_record(post, t, k) == spec_trees_record(orig, t, k) by {
        lemma_tree_index_push(orig, post, t);
        match spec_tree_index(post, t) {
            Some(i) => {
                lemma_tree_index_props(post, t, i);
                if i == post.len() - 1 {
                    match spec_tree_index(orig, t) {
                        Some(oi) => {
                            assert(spec_tree_index(post, t) == Some(oi));
                        },
                        None => {},
                    }
                    assert(post[i].spec_get(k) is None);
                } else {
                    match spec_tree_index(orig, t) {
                        Some(oi) => {
                            assert(post[i] == orig[i]);
                        },
                        None => {
                            assert(false);
                        },
                    }
                }
            },
            None => {
                match spec_tree_index(orig, t) {
                    Some(oi) => {
                        assert(spec_tree_index(post, t) == Some(oi));
                        assert(false);
                    },
                    None => {},
                }
            },
        }
    }
}

/// What handling `CheckOut` or `Return` does: only the check-out queues
/// of the listed keys of this tree move, each by the queue-step rule
/// (enqueue unless present; dequeue only at the head); a change is fanned
/// out as one `BorrowsChanged` broadcast, and an unpresented caller moves
/// nothing.
pub open spec fn spec_check_out_post(
    pre: RelayState,
    post: RelayState,
    conn: ConnState,
    tree: Seq<char>,
    keys: Seq<GenericKey>,
    checking_out: bool,
    step: RelayStep,
) -> bool {
    &&& post.spec_uuid() == pre.spec_uuid()
    &&& post.spec_trees() == pre.spec_trees()
    &&& post.spec_clients() == pre.spec_clients()
    &&& post.spec_tree_infos() == pre.spec_tree_infos()
    &&& post.spec_tombstones() == pre.spec_tombstones()
    &&& post.spec_managed() == pre.spec_managed()
    &&& step.to_caller@.len() == 0
    &&& step.broadcast@.len() <= 1
    &&& (step.broadcast@.len() == 1 ==> (step.broadcast@[0] matches BroadcastEvent::BorrowsChanged(
        t,
        ks,
    ) && t@ == tree && ks@ == keys))
    &&& (conn.info is None ==> post.spec_borrows() == pre.spec_borrows() && step.broadcast@.len()
        == 0)
    &&& forall|t: Seq<char>, k: GenericKey|
        t != tree || !keys.contains(k) ==> #[trigger] spec_queue(post.spec_borrows(), t, k)
            == spec_queue(pre.spec_borrows(), t, k)
    &&& match conn.info {
        Some(u) => spec_keys_distinct(keys) ==> forall|j: int|
            0 <= j < keys.len() ==> #[trigger] spec_queue(post.spec_borrows(), tree, keys[j])
                == spec_queue_step(spec_queue(pre.spec_borrows(), tree, keys[j]), u, checking_out),
        None => true,
    }
}

impl RelayState {
    /// Pushes or pops a caller on each listed key's check-out queue: a
    /// `CheckOut` enqueues the caller unless it already waits there; a
    /// `Return` dequeues it exactly when it is at the head. Queues of
    /// other keys and trees never move. A change is fanned out as one
    /// `BorrowsChanged` broadcast.
    pub fn process_check_out(
        &mut self,
        conn: &ConnState,
        tree: &String,
        keys: &Vec<GenericKey>,
        checking_out: bool,
    ) -> (r: RelayStep)
        requires
            old(self).wf(),
        ensures
            final(self).wf(),
            spec_check_out_post(*old(self), *final(self), *conn, tree@, keys@, checking_out, r),
    {
        let step = RelayStep::new();
        let u = match conn.info {
            Some(u) => u,
            None => {
                return step;
            },
        };
        let mut changed = false;
        let mut i: usize = 0;
        while i < keys.len()
            invariant
                old(self).wf(),
                self.wf(),
                self.spec_uuid() == old(self).spec_uuid(),
                self.spec_trees() == old(self).spec_trees(),
                self.spec_clients() == old(self).spec_clients(),
                self.spec_tree_infos() == old(self).spec_tree_infos(),
                self.spec_tombstones() == old(self).spec_tombstones(),
                self.spec_managed() == old(self).spec_managed(),
                0 <= i <= keys@.len(),
                conn.info == Some(u),
                forall|t: Seq<char>, k: GenericKey|
                    t != tree@ || !keys@.contains(k) ==> #[trigger] spec_queue(
                        self.spec_borrows(),
                        t,
                        k,
                    ) == spec_queue(old(self).spec_borrows(), t, k),
                spec_keys_distinct(keys@) ==> forall|j: int|
                    0 <= j < i ==> #[trigger] spec_queue(self.spec_borrows(), tree@, keys@[j])
                        == spec_queue_step(
                        spec_queue(old(self).spec_borrows(), tree@, keys@[j]),
                        u,
                        checking_out,
                    ),
                spec_keys_distinct(keys@) ==> forall|j: int|
                    i <= j < keys@.len() ==> #[trigger] spec_queue(
                        self.spec_borrows(),
                        tree@,
                        keys@[j],
                    ) == spec_queue(old(self).spec_borrows(), tree@, keys@[j]),
            decreases keys@.len() - i,
    {
            let key = keys[i];
            proof {
                assert(keys@.contains(keys@[i as int]));
            }
            let this_changed = if checking_out {
                self.borrows.check_out_one(tree, key, u)
            } else {
                self.borrows.return_one(tree, key, u)
            };
            changed = changed || this_changed;
            i = i + 1;
        }
        if changed {
            let mut out = RelayStep::new();
            out.broadcast.push(
                BroadcastEvent::BorrowsChanged(tree.clone(), crate::db::copy_keys(keys)),
            );
            out
        } else {
            step
        }
    }
}

/// What handling `TreeOverview` does: the tree is registered if new (its
/// counter entry appears, no record moves), and the caller is answered
/// with one request for exactly the records this relay is missing — never
/// a tombstoned key — followed by one removal event for every tombstoned
/// key of the tree, so a peer that never saw a removed record still
/// learns of its removal.
pub open spec fn spec_tree_overview_post(
    pre: RelayState,
    post: RelayState,
    tree: Seq<char>,
    records: Seq<(GenericKey, RecordIteration)>,
    step: RelayStep,
) -> bool {
    &&& post.spec_uuid() == pre.spec_uuid()
    &&& post.spec_borrows() == pre.spec_borrows()
    &&& post.spec_tombstones() == pre.spec_tombstones()
    &&& step.broadcast@.len() == 0
    &&& smap_get(post.spec_tree_infos(), tree) is Some
    &&& forall|n: Seq<char>|
        n != tree ==> #[trigger] smap_get(post.spec_tree_infos(), n) == smap_get(
            pre.spec_tree_infos(),
            n,
        )
    &&& forall|t: Seq<char>, k: GenericKey|
        #[trigger] spec_relay_record(post, t, k) == spec_relay_record(pre, t, k)
    &&& spec_tree_index(post.spec_trees(), tree) is Some
    &&& step.to_caller@.len() >= 1
    &&& ({
        let i = spec_tree_index(post.spec_trees(), tree)->Some_0;
        let missing = spec_missing_of(post.spec_trees()[i], records, post.spec_tombstones());
        let dead = crate::sync_common::spec_tree_tombstones(post.spec_tombstones(), tree);
        &&& (step.to_caller@[0] matches Event::RequestRecords { tree: t, keys } && t@ == tree
            && keys@ == missing)
        &&& step.to_caller@.len() == 1 + dead.len()
        &&& forall|j: int|
            0 <= j < dead.len() ==> (#[trigger] step.to_caller@[1 + j] matches Event::HotSyncEvent(
                e,
            ) && e.tree_name@ == tree && e.key == dead[j] && e.kind@
                == crate::sync_common::HotSyncKindView::Removed && e.source_addr is None)
    })
}

impl RelayState {
    /// Registers an announced tree if it is new, subscribes the caller to
    /// it, and answers with a request for the records this relay is
    /// missing, plus one removal event per announced key the tombstone
    /// set lists.
    pub fn process_tree_overview(
        &mut self,
        conn: &ConnState,
        tree: &String,
        records: &Vec<(GenericKey, RecordIteration)>,
    ) -> (r: RelayStep)
        requires
            old(self).wf(),
        ensures
            final(self).wf(),
            spec_tree_overview_post(*old(self), *final(self), tree@, records@, r),
    {
        match smap_find(&self.tree_infos, tree) {
            Some(ti) => {
                proof {
                    lemma_smap_get_at(self.tree_infos@, ti as int, tree@);
                }
            },
            None => {
                proof {
                    lemma_smap_get_absent(self.tree_infos@, tree@);
                }
                self.managed.add_to_managed(tree.as_str());
                let ghost pre_infos = self.tree_infos@;
                self.tree_infos.push((tree.clone(), 0));
                proof {
                    assert forall|n: Seq<char>| #[trigger]
                        smap_get(self.tree_infos@, n) == if n == tree@ {
                            Some(0u32)
                        } else {
                            smap_get(pre_infos, n)
                        } by {
                        lemma_smap_get_push(
                            pre_infos,
                            self.tree_infos@[self.tree_infos@.len() - 1],
                            n,
                        );
                    }
                    assert forall|x: int, y: int|
                        0 <= x < y < self.tree_infos@.len() implies #[trigger] self.tree_infos@[x].0@
                        != #[trigger] self.tree_infos@[y].0@ by {
                        if y < self.tree_infos@.len() - 1 {
                            assert(pre_infos[x].0@ != pre_infos[y].0@);
                        } else {
                            assert(pre_infos[x].0@ != tree@);
                        }
                    }
                }
            },
        }
        let ti = match find_tree(&self.trees, tree) {
            Some(i) => {
                proof {
                    lemma_tree_index_at(self.trees@, i as int, tree@);
                }
                i
            },
            None => {
                proof {
                    lemma_tree_index_absent(self.trees@, tree@);
                }
                let t = TypedTree::new(tree.clone(), false, self.self_uuid, String::new());
                let ghost pre_trees = self.trees@;
                self.trees.push(t);
                proof {
                    assert forall|j: int|
                        0 <= j < self.trees@.len() implies (#[trigger] self.trees@[j]).wf() by {
                        if j < self.trees@.len() - 1 {
                            assert(self.trees@[j] == pre_trees[j]);
                        }
                    }
                    lemma_tree_index_at(self.trees@, self.trees@.len() - 1, tree@);
                    lemma_relay_record_after_create(pre_trees, self.trees@, tree@);
                }
                self.trees.len() - 1
            },
        };
        if let Some(u) = conn.info {
            match umap_find(&self.clients, u) {
                Some(ci) => {
                    proof {
                        lemma_alist_get_at(self.clients@, ci as int, u);
                    }
                    let ghost pre_clients = self.clients@;
                    self.clients[ci].1.subscribe(tree);
                    proof {
                        assert(self.clients@ =~= pre_clients.update(
                            ci as int,
                            self.clients@[ci as int],
                        ));
                        assert forall|x: int, y: int|
                            0 <= x < y < self.clients@.len() implies (#[trigger] self.clients@[x]).0
                            != (#[trigger] self.clients@[y]).0 by {
                            assert(pre_clients[x].0 != pre_clients[y].0);
                        }
                        assert forall|i: int|
                            0 <= i < self.clients@.len() implies (#[trigger] self.clients@[i]).1.wf()
                            && self.clients@[i].1.uuid == self.clients@[i].0 by {
                            if i != ci {
                                assert(self.clients@[i] == pre_clients[i]);
                            }
                        }
                    }
                },
                None => {},
            }
        }
        proof {
            assert(self.spec_trees()[ti as int].wf());
        }
        let pair = compare_and_request_missing_records(
            &self.trees[ti],
            records,
            Some(&self.tombstones),
        );
        let mut step = RelayStep::new();
        step.to_caller.push(Event::RequestRecords { tree: tree.clone(), keys: pair.0 });
        // Every tombstoned key of the tree is pushed as a removal, so a
        // peer that never saw the record learns of its removal too.
        let found = self.tombstones.keys_of_tree(tree);
        let ghost first_event = step.to_caller@[0];
        let mut j: usize = 0;
        while j < found.len()
            invariant
                0 <= j <= found@.len(),
                step.to_caller@.len() == 1 + j,
                step.broadcast@.len() == 0,
                step.to_caller@[0] == first_event,
                found@ == crate::sync_common::spec_tree_tombstones(self.spec_tombstones(), tree@),
                forall|x: int|
                    0 <= x < j ==> (#[trigger] step.to_caller@[1 + x] matches Event::HotSyncEvent(
                        e,
                    ) && e.tree_name@ == tree@ && e.key == found@[x] && e.kind@
                        == crate::sync_common::HotSyncKindView::Removed && e.source_addr is None),
            decreases found@.len() - j,
        {
            let ghost pre_out = step.to_caller@;
            step.to_caller.push(
                Event::HotSyncEvent(
                    HotSyncEvent {
                        tree_name: tree.clone(),
                        key: found[j],
                        source_addr: None,
                        kind: HotSyncEventKind::Removed,
                    },
                ),
            );
            proof {
                assert forall|x: int|
                    0 <= x < j + 1 implies (#[trigger] step.to_caller@[1 + x] matches Event::HotSyncEvent(
                    e,
                ) && e.tree_name@ == tree@ && e.key == found@[x] && e.kind@
                    == crate::sync_common::HotSyncKindView::Removed && e.source_addr is None) by {
                    if x < j {
                        assert(step.to_caller@[1 + x] == pre_out[1 + x]);
                    }
                }
            }
            j = j + 1;
        }
        step
    }
}

/// The queue of one key after one caller's check-out or return attempt.
pub open spec fn spec_queue_step(q: Seq<NodeUuid>, u: NodeUuid, checking_out: bool) -> Seq<
    NodeUuid,
> {
    if checking_out {
        if q.contains(u) {
            q
        } else {
            q.push(u)
        }
    } else {
        if q.len() > 0 && q[0] == u {
            q.drop_first()
        } else {
            q
        }
    }
}

/// Whether a broadcast hot-sync event must be forwarded to a connection:
/// every connection but the event's source receives it.
pub fn should_forward(ev: &HotSyncEvent, conn_id: u64) -> (r: bool)
    ensures
        r == (ev.source_addr != Some(conn_id)),
{
    match ev.source_addr {
        Some(src) => src != conn_id,
        None => true,
    }
}

impl RelayState {
    /// One `CheckedOut` frame per listed key that has a queue entry,
    /// carrying the current queue.
    pub fn borrows_changed_events(&self, tree: &String, keys: &Vec<GenericKey>) -> (r: Vec<Event>)
        requires
            self.wf(),
        ensures
            forall|x: int|
                0 <= x < r@.len() ==> ((#[trigger] r@[x]) matches Event::CheckedOut {
                    tree: t,
                    key,
                    queue,
                } && t@ == tree@ && keys@.contains(key) && queue@ == spec_queue(
                    self.spec_borrows(),
                    tree@,
                    key,
                )),
            forall|j: int|
                0 <= j < keys@.len() && crate::borrows::bq_get(
                    self.spec_borrows()@,
                    tree@,
                    #[trigger] keys@[j],
                ) is Some ==> exists|x: int|
                    0 <= x < r@.len() && ((#[trigger] r@[x]) matches Event::CheckedOut {
                        tree: t,
                        key,
                        queue,
                    } && t@ == tree@ && key == keys@[j] && queue@ == spec_queue(
                        self.spec_borrows(),
                        tree@,
                        keys@[j],
                    )),
    {
        let mut out: Vec<Event> = Vec::new();
        let mut i: usize = 0;
        while i < keys.len()
            invariant
                self.wf(),
                0 <= i <= keys@.len(),
                forall|x: int|
                    0 <= x < out@.len() ==> ((#[trigger] out@[x]) matches Event::CheckedOut {
                        tree: t,
                        key,
                        queue,
                    } && t@ == tree@ && keys@.contains(key) && queue@ == spec_queue(
                        self.spec_borrows(),
                        tree@,
                        key,
                    )),
                forall|j: int|
                    0 <= j < i && crate::borrows::bq_get(
                        self.spec_borrows()@,
                        tree@,
                        #[trigger] keys@[j],
                    ) is Some ==> exists|x: int|
                        0 <= x < out@.len() && ((#[trigger] out@[x]) matches Event::CheckedOut {
                            tree: t,
                            key,
                            queue,
                        } && t@ == tree@ && key == keys@[j] && queue@ == spec_queue(
                            self.spec_borrows(),
                            tree@,
                            keys@[j],
                        )),
            decreases keys@.len() - i,
        {
            let key = keys[i];
            proof {
                assert(keys@.contains(keys@[i as int]));
            }
            let ghost pre_out = out@;
            match self.borrows.get_queue(tree, key) {
                Some(q) => {
                    let queue = crate::borrows::copy_queue(q);
                    out.push(Event::CheckedOut { tree: tree.clone(), key, queue });
                },
                None => {},
            }
            proof {
                assert forall|j: int|
                    0 <= j < i + 1 && crate::borrows::bq_get(
                        self.spec_borrows()@,
                        tree@,
                        #[trigger] keys@[j],
                    ) is Some implies exists|x: int|
                    0 <= x < out@.len() && ((#[trigger] out@[x]) matches Event::CheckedOut {
                        tree: t,
                        key,
                        queue,
                    } && t@ == tree@ && key == keys@[j] && queue@ == spec_queue(
                        self.spec_borrows(),
                        tree@,
                        keys@[j],
                    )) by {
                    if j < i {
                        let w = choose|w: int|
                            0 <= w < pre_out.len() && ((#[trigger] pre_out[w]) matches Event::CheckedOut {
                                tree: t,
                                key,
                                queue,
                            } && t@ == tree@ && key == keys@[j] && queue@ == spec_queue(
                                self.spec_borrows(),
                                tree@,
                                keys@[j],
                            ));
                        assert(out@[w] == pre_out[w]);
                    } else {
                        assert(out@[out@.len() - 1] matches Event::CheckedOut {
                            tree: t,
                            key,
                            queue,
                        } && t@ == tree@ && key == keys@[j] && queue@ == spec_queue(
                            self.spec_borrows(),
                            tree@,
                            keys@[j],
                        ));
                    }
                }
            }
            i = i + 1;
        }
        out
    }

    /// Streams the requested records back to the caller as
    /// `CreatedOrChanged` events carrying this connection as their source.
    pub fn process_request_records(
        &self,
        conn: &ConnState,
        tree: &String,
        keys: &Vec<GenericKey>,
    ) -> (r: RelayStep)
        requires
            self.wf(),
        ensures
            spec_request_records_post(*self, *conn, tree@, keys@, r),
    {
        let mut step = RelayStep::new();
        match find_tree(&self.trees, tree) {
            Some(i) => {
                proof {
                    lemma_tree_index_at(self.trees@, i as int, tree@);
                    assert(self.spec_trees()[i as int].wf());
                }
                let mut events = collect_records(&self.trees[i], keys, Some(conn.conn_id));
                let ghost events_snap = events@;
                step.to_caller.append(&mut events);
                proof {
                    assert(step.to_caller@ =~= events_snap);
                    assert forall|x: int|
                        0 <= x < step.to_caller@.len() implies ((
                    #[trigger] step.to_caller@[x]) matches Event::HotSyncEvent(e) && e.tree_name@
                        == tree@ && keys@.contains(e.key) && e.source_addr == Some(
                        conn.conn_id,
                    )) by {
                        assert(step.to_caller@[x] == events_snap[x]);
                    }
                    assert forall|j: int|
                        0 <= j < keys@.len() && self.spec_trees()[i as int].spec_get(
                            #[trigger] keys@[j],
                        ) is Some implies exists|x: int|
                        0 <= x < step.to_caller@.len() && ((
                    #[trigger] step.to_caller@[x]) matches Event::HotSyncEvent(e) && e.key
                        == keys@[j]) by {
                        let w = choose|w: int|
                            0 <= w < events_snap.len() && ((#[trigger] events_snap[w]) matches Event::HotSyncEvent(
                                e,
                            ) && e.key == keys@[j]);
                        assert(step.to_caller@[w] == events_snap[w]);
                    }
                }
            },
            None => {
                proof {
                    lemma_tree_index_absent(self.trees@, tree@);
                }
            },
        }
        step
    }

    /// Handles one frame from a peer connection, dispatching to the
    /// operation it announces. The hot-sync path keeps the two relay
    /// guarantees stated by `spec_hot_sync_post`: a forged first create
    /// (an unowned key id at meta iteration zero) is dropped without a
    /// trace, and a tombstoned key admits nothing but further removal.
    pub fn process_message(&mut self, conn: &mut ConnState, ev: &Event) -> (r: RelayStep)
        requires
            old(self).wf(),
        ensures
            final(self).wf(),
            match ev {
                Event::PresentSelf { uuid, .. } => spec_present_self_post(
                    *old(self),
                    *final(self),
                    *old(conn),
                    *final(conn),
                    *uuid,
                    r,
                ),
                Event::GetTreeOverview { .. } => *final(conn) == *old(conn)
                    && spec_relay_unchanged(*old(self), *final(self)) && r.to_caller@.len() == 0
                    && r.broadcast@.len() == 0,
                Event::TreeOverview { tree, records } => *final(conn) == *old(conn)
                    && spec_tree_overview_post(*old(self), *final(self), tree@, records@, r),
                Event::RequestRecords { tree, keys } => *final(conn) == *old(conn)
                    && spec_relay_unchanged(*old(self), *final(self))
                    && spec_request_records_post(*old(self), *old(conn), tree@, keys@, r),
                Event::HotSyncEvent(hse) => *final(conn) == *old(conn) && spec_hot_sync_post(
                    *old(self),
                    *final(self),
                    *old(conn),
                    *hse,
                    r,
                ),
                Event::GetKeySet { tree } => *final(conn) == *old(conn) && spec_get_key_set_post(
                    *old(self),
                    *final(self),
                    *old(conn),
                    tree@,
                    r,
                ),
                Event::CheckOut { tree, keys } => *final(conn) == *old(conn)
                    && spec_check_out_post(
                    *old(self),
                    *final(self),
                    *old(conn),
                    tree@,
                    keys@,
                    true,
                    r,
                ),
                Event::Return { tree, keys } => *final(conn) == *old(conn) && spec_check_out_post(
                    *old(self),
                    *final(self),
                    *old(conn),
                    tree@,
                    keys@,
                    false,
                    r,
                ),
                Event::KeySet { .. } | Event::CheckedOut { .. } => *final(conn) == *old(conn)
                    && spec_relay_unchanged(*old(self), *final(self)) && r.to_caller@.len() == 0
                    && r.broadcast@.len() == 0,
            },
    {
        match ev {
            Event::PresentSelf { uuid, readable_name } => self.process_present_self(
                conn,
                *uuid,
                readable_name,
            ),
            Event::GetTreeOverview { .. } => RelayStep::new(),
            Event::TreeOverview { tree, records } => self.process_tree_overview(
                conn,
                tree,
                records,
            ),
            Event::RequestRecords { tree, keys } => self.process_request_records(conn, tree, keys),
            Event::HotSyncEvent(hse) => self.process_hot_sync(conn, hse),
            Event::GetKeySet { tree } => self.process_get_key_set(conn, tree),
            Event::CheckOut { tree, keys } => self.process_check_out(conn, tree, keys, true),
            Event::Return { tree, keys } => self.process_check_out(conn, tree, keys, false),
            Event::KeySet { .. } | Event::CheckedOut { .. } => {
                // A client never legitimately sends these; ignore them.
                RelayStep::new()
            },
        }
    }
}

} // verus!
