use crate::db::clone_meta;
use crate::db::copy_bytes;
use crate::db::spec_indexes_partial;
use crate::db::spec_indexes_removed;
use crate::db::spec_indexes_shape;
use crate::db::TreeIndexes;
use crate::db::TypedTree;
use crate::index::Action;
use crate::keys::GenericKey;
use crate::record::Record;
use crate::record::RecordMetaView;
use crate::record::RecordView;
use crate::sync::Event;
use crate::sync::HotSyncEvent;
use crate::sync::HotSyncEventKind;
use crate::sync::RecordIteration;
use vstd::prelude::*;

verus! {

/// The mathematical value of a hot-sync payload.
pub enum HotSyncKindView {
    MetaChanged { meta: RecordMetaView, meta_iteration: u32 },
    CreatedOrChanged {
        meta: RecordMetaView,
        meta_iteration: u32,
        data: Seq<u8>,
        data_evolution: crate::version::SimpleVersion,
        data_iteration: u32,
    },
    Removed,
}

impl View for HotSyncEventKind {
    type V = HotSyncKindView;

    open spec fn view(&self) -> HotSyncKindView {
        match self {
            HotSyncEventKind::MetaChanged { meta, meta_iteration } => HotSyncKindView::MetaChanged {
                meta: meta@,
                meta_iteration: *meta_iteration,
            },
            HotSyncEventKind::CreatedOrChanged {
                meta,
                meta_iteration,
                data,
                data_evolution,
                data_iteration,
            } => HotSyncKindView::CreatedOrChanged {
                meta: meta@,
                meta_iteration: *meta_iteration,
                data: data@,
                data_evolution: *data_evolution,
                data_iteration: *data_iteration,
            },
            HotSyncEventKind::Removed => HotSyncKindView::Removed,
        }
    }
}

/// The record under a key, as a mathematical value.
pub open spec fn spec_view_of(cur: Option<Record>) -> Option<RecordView> {
    match cur {
        None => None,
        Some(rec) => Some(rec@),
    }
}

/// How one hot-sync event transforms the record stored under its key.
/// Conflict resolution is last-writer-wins on each iteration counter
/// independently; an event whose counters do not strictly advance the
/// stored ones is ignored; a meta-only change never creates a record;
/// removal of an absent record is a no-op. An event whose meta block
/// names a different key than the event itself would break the key/meta
/// binding and is ignored.
pub open spec fn spec_apply_kind(
    k: GenericKey,
    cur: Option<RecordView>,
    kind: HotSyncKindView,
) -> Option<RecordView> {
    match kind {
        HotSyncKindView::MetaChanged { meta, meta_iteration } => if meta.key != k {
            cur
        } else {
            match cur {
                None => None,
                Some(old) => if meta_iteration <= old.meta_iteration {
                    Some(old)
                } else {
                    Some(
                        RecordView {
                            meta_iteration,
                            meta,
                            data_iteration: old.data_iteration,
                            data_evolution: old.data_evolution,
                            data: old.data,
                        },
                    )
                },
            }
        },
        HotSyncKindView::CreatedOrChanged {
            meta,
            meta_iteration,
            data,
            data_evolution,
            data_iteration,
        } => if meta.key != k {
            cur
        } else {
            let incoming = RecordView {
                meta_iteration,
                meta,
                data_iteration,
                data_evolution,
                data,
            };
            match cur {
                None => Some(incoming),
                Some(old) => if meta_iteration <= old.meta_iteration || data_iteration
                    <= old.data_iteration {
                    Some(old)
                } else {
                    Some(incoming)
                },
            }
        },
        HotSyncKindView::Removed => None,
    }
}

/// Whether an event changes the store at all: the meta block must carry
/// the event's key, the counters must strictly advance the stored ones,
/// and a meta-only change or a removal needs an existing record.
pub open spec fn spec_event_applies(
    cur: Option<RecordView>,
    k: GenericKey,
    kind: HotSyncKindView,
) -> bool {
    match kind {
        HotSyncKindView::MetaChanged { meta, meta_iteration } => meta.key == k && (match cur {
            Some(o) => meta_iteration > o.meta_iteration,
            None => false,
        }),
        HotSyncKindView::CreatedOrChanged { meta, meta_iteration, data_iteration, .. } => meta.key
            == k && (match cur {
            Some(o) => meta_iteration > o.meta_iteration && data_iteration > o.data_iteration,
            None => true,
        }),
        HotSyncKindView::Removed => cur is Some,
    }
}

/// Applying any hot-sync event twice leaves the store as after the first
/// application: the second pass finds the counters already present and is
/// ignored.
pub proof fn lemma_apply_idempotent(k: GenericKey, cur: Option<RecordView>, kind: HotSyncKindView)
    ensures
        spec_apply_kind(k, spec_apply_kind(k, cur, kind), kind) == spec_apply_kind(k, cur, kind),
{
}

/// The iteration counters never move backwards: whenever an event leaves
/// a record in place, the record's counters are at least what they were.
pub proof fn lemma_apply_iterations_monotonic(
    k: GenericKey,
    cur: Option<RecordView>,
    kind: HotSyncKindView,
)
    ensures
        match (cur, spec_apply_kind(k, cur, kind)) {
            (Some(a), Some(b)) => b.meta_iteration >= a.meta_iteration && b.data_iteration
                >= a.data_iteration,
            _ => true,
        },
{
}

/// Applying the same `Removed` event twice leaves the store unchanged
/// after the first removal.
pub proof fn lemma_removed_idempotent(k: GenericKey, cur: Option<RecordView>)
    ensures
        spec_apply_kind(
            k,
            spec_apply_kind(k, cur, HotSyncKindView::Removed),
            HotSyncKindView::Removed,
        ) == spec_apply_kind(k, cur, HotSyncKindView::Removed),
{
}

/// Applying the same `CreatedOrChanged` event twice is a no-op after the
/// first: on the second pass the iterations compare equal.
pub proof fn lemma_created_or_changed_idempotent(
    k: GenericKey,
    cur: Option<RecordView>,
    meta: RecordMetaView,
    meta_iteration: u32,
    data: Seq<u8>,
    data_evolution: crate::version::SimpleVersion,
    data_iteration: u32,
)
    ensures
        ({
            let kind = HotSyncKindView::CreatedOrChanged {
                meta,
                meta_iteration,
                data,
                data_evolution,
                data_iteration,
            };
            spec_apply_kind(k, spec_apply_kind(k, cur, kind), kind) == spec_apply_kind(
                k,
                cur,
                kind,
            )
        }),
{
}

/// Last-writer-wins, stated both ways: a `CreatedOrChanged` event
/// overwrites an existing record exactly when both of its counters are
/// strictly greater than the stored ones; otherwise the stored record
/// stays.
pub proof fn lemma_apply_last_writer_wins(
    k: GenericKey,
    cur: RecordView,
    meta: RecordMetaView,
    meta_iteration: u32,
    data: Seq<u8>,
    data_evolution: crate::version::SimpleVersion,
    data_iteration: u32,
)
    requires
        meta.key == k,
    ensures
        ({
            let kind = HotSyncKindView::CreatedOrChanged {
                meta,
                meta_iteration,
                data,
                data_evolution,
                data_iteration,
            };
            let incoming = RecordView { meta_iteration, meta, data_iteration, data_evolution, data };
            spec_apply_kind(k, Some(cur), kind) == if meta_iteration > cur.meta_iteration
                && data_iteration > cur.data_iteration {
                Some(incoming)
            } else {
                Some(cur)
            }
        }),
{
}

/// A node that applies a peer's record, sent as `CreatedOrChanged` with
/// both counters strictly above its own, ends up holding exactly the
/// peer's record: the one-key form of reconciliation convergence.
pub proof fn lemma_apply_converges(k: GenericKey, cur: Option<RecordView>, remote: RecordView)
    requires
        remote.meta.key == k,
        match cur {
            None => true,
            Some(local) => local.meta_iteration < remote.meta_iteration && local.data_iteration
                < remote.data_iteration,
        },
    ensures
        spec_apply_kind(
            k,
            cur,
            HotSyncKindView::CreatedOrChanged {
                meta: remote.meta,
                meta_iteration: remote.meta_iteration,
                data: remote.data,
                data_evolution: remote.data_evolution,
                data_iteration: remote.data_iteration,
            },
        ) == Some(remote),
{
}

/// Applies one inbound hot-sync event to a tree, exactly as
/// `spec_apply_kind` says; every other key is untouched. Returns whether
/// the store changed.
pub fn handle_incoming_record(tree: &mut TypedTree, ev: &HotSyncEvent) -> (applied: bool)
    requires
        old(tree).wf(),
    ensures
        final(tree).wf(),
        final(tree).same_identity(old(tree)),
        final(tree).spec_pool() == old(tree).spec_pool(),
        final(tree).spec_pending() == old(tree).spec_pending(),
        spec_view_of(final(tree).spec_get(ev.key)) == spec_apply_kind(
            ev.key,
            spec_view_of(old(tree).spec_get(ev.key)),
            ev.kind@,
        ),
        forall|k2: GenericKey| k2 != ev.key ==> final(tree).spec_get(k2) == old(tree).spec_get(k2),
        applied == spec_event_applies(spec_view_of(old(tree).spec_get(ev.key)), ev.key, ev.kind@),
        !applied ==> final(tree).spec_entries() == old(tree).spec_entries(),
{
    let key = ev.key;
    match &ev.kind {
        HotSyncEventKind::MetaChanged { meta, meta_iteration } => {
            if !(meta.key == key) {
                return false;
            }
            let (old_mit, old_dit, old_evo, old_data) = match tree.get_record(key) {
                Some(old_rec) => (
                    old_rec.meta_iteration,
                    old_rec.data_iteration,
                    old_rec.data_evolution,
                    copy_bytes(&old_rec.data),
                ),
                None => {
                    // A meta-only change never creates a record.
                    return false;
                },
            };
            if *meta_iteration <= old_mit {
                return false;
            }
            let new_meta = clone_meta(meta);
            let record = Record {
                meta_iteration: *meta_iteration,
                meta: new_meta,
                data_iteration: old_dit,
                data_evolution: old_evo,
                data: old_data,
            };
            tree.put_record(key, record);
            true
        },
        HotSyncEventKind::CreatedOrChanged {
            meta,
            meta_iteration,
            data,
            data_evolution,
            data_iteration,
        } => {
            if !(meta.key == key) {
                return false;
            }
            match tree.get_record(key) {
                Some(old_rec) => {
                    if *meta_iteration <= old_rec.meta_iteration || *data_iteration
                        <= old_rec.data_iteration {
                        return false;
                    }
                },
                None => {},
            }
            let new_meta = clone_meta(meta);
            let record = Record {
                meta_iteration: *meta_iteration,
                meta: new_meta,
                data_iteration: *data_iteration,
                data_evolution: *data_evolution,
                data: copy_bytes(data),
            };
            tree.put_record(key, record);
            true
        },
        HotSyncEventKind::Removed => {
            let removed = tree.remove_record(key);
            removed.is_some()
        },
    }
}

/// Applies one inbound hot-sync event to a tree together with its
/// registered indexes, as the sync worker does: the record moves exactly
/// as `spec_apply_kind` says, and each index mirrors the change with the
/// names the embedding program extracted from the event. Unlike a local
/// mutation, an indexer refusal does not stop an inbound record — the
/// peers already agreed on it — so an index that refuses is left as it
/// was while the record is still written.
pub fn handle_incoming_record_indexed(
    tree: &mut TypedTree,
    ev: &HotSyncEvent,
    indexes: &mut TreeIndexes,
    named_names: &Vec<String>,
    multi_names: &Vec<Vec<String>>,
) -> (applied: bool)
    requires
        old(tree).wf(),
        old(indexes).wf(),
        named_names@.len() == old(indexes).named@.len(),
        multi_names@.len() == old(indexes).multi@.len(),
    ensures
        final(tree).wf(),
        final(tree).same_identity(old(tree)),
        final(tree).spec_pool() == old(tree).spec_pool(),
        final(tree).spec_pending() == old(tree).spec_pending(),
        spec_view_of(final(tree).spec_get(ev.key)) == spec_apply_kind(
            ev.key,
            spec_view_of(old(tree).spec_get(ev.key)),
            ev.kind@,
        ),
        forall|k2: GenericKey| k2 != ev.key ==> final(tree).spec_get(k2) == old(tree).spec_get(k2),
        !applied ==> final(tree).spec_entries() == old(tree).spec_entries(),
        final(indexes).wf(),
        spec_indexes_shape(*old(indexes), *final(indexes)),
        !applied ==> final(indexes).named@ == old(indexes).named@ && final(indexes).multi@ == old(
            indexes,
        ).multi@,
        applied ==> match ev.kind@ {
            HotSyncKindView::MetaChanged { .. } => final(indexes).named@ == old(indexes).named@
                && final(indexes).multi@ == old(indexes).multi@,
            HotSyncKindView::CreatedOrChanged { .. } => spec_indexes_partial(
                *old(indexes),
                *final(indexes),
                ev.key,
                if old(tree).spec_get(ev.key) is Some {
                    Action::Update
                } else {
                    Action::Insert
                },
                named_names@,
                multi_names@,
            ),
            HotSyncKindView::Removed => spec_indexes_removed(
                *old(indexes),
                *final(indexes),
                named_names@,
                multi_names@,
            ),
        },
{
    // Decide first whether the event will apply, so the indexes only move
    // when the record does.
    let will_apply: bool = match &ev.kind {
        HotSyncEventKind::MetaChanged { meta, meta_iteration } => meta.key == ev.key && (match tree.get_record(ev.key) {
            Some(old_rec) => *meta_iteration > old_rec.meta_iteration,
            None => false,
        }),
        HotSyncEventKind::CreatedOrChanged { meta, meta_iteration, data_iteration, .. } => meta.key
            == ev.key && (match tree.get_record(ev.key) {
            Some(old_rec) => *meta_iteration > old_rec.meta_iteration && *data_iteration
                > old_rec.data_iteration,
            None => true,
        }),
        HotSyncEventKind::Removed => tree.get_record(ev.key).is_some(),
    };
    if will_apply {
        match &ev.kind {
            HotSyncEventKind::MetaChanged { .. } => {
                // Data unchanged: no indexer runs on a meta-only change.
            },
            HotSyncEventKind::CreatedOrChanged { .. } => {
                let action = if tree.get_record(ev.key).is_some() {
                    Action::Update
                } else {
                    Action::Insert
                };
                let r = indexes.apply_all(ev.key, action, named_names, multi_names);
                proof {
                    if r is Err {
                        assert(spec_indexes_partial(
                            *old(indexes),
                            *indexes,
                            ev.key,
                            action,
                            named_names@,
                            multi_names@,
                        ));
                    }
                }
            },
            HotSyncEventKind::Removed => {
                let r = indexes.apply_all(ev.key, Action::Remove, named_names, multi_names);
            },
        }
    }
    let applied = handle_incoming_record(tree, ev);
    proof {
        assert(applied == will_apply);
    }
    applied
}

/// The overview a tree reports: every key with its two iteration
/// counters, in byte order of the keys.
pub open spec fn spec_overview_of(tree: TypedTree) -> Seq<(GenericKey, RecordIteration)> {
    tree.spec_entries().map_values(
        |p: (GenericKey, Record)|
            (
                p.0,
                RecordIteration {
                    meta_iteration: p.1.meta_iteration,
                    data_iteration: p.1.data_iteration,
                },
            ),
    )
}

/// The overview of a tree: every key with its two iteration counters, in
/// byte order of the keys.
pub fn tree_overview(tree: &TypedTree) -> (r: Vec<(GenericKey, RecordIteration)>)
    requires
        tree.wf(),
    ensures
        r@ == spec_overview_of(*tree),
{
    let mut out: Vec<(GenericKey, RecordIteration)> = Vec::new();
    let mut i: usize = 0;
    while i < tree.entries_len()
        invariant
            tree.wf(),
            0 <= i <= tree.spec_entries().len(),
            out@.len() == i,
            forall|j: int|
                0 <= j < i ==> {
                    &&& (#[trigger] out@[j]).0 == tree.spec_entries()[j].0
                    &&& out@[j].1.meta_iteration == tree.spec_entries()[j].1.meta_iteration
                    &&& out@[j].1.data_iteration == tree.spec_entries()[j].1.data_iteration
                },
        decreases tree.spec_entries().len() - i,
    {
        let entry = tree.entry_at(i);
        let it = RecordIteration {
            meta_iteration: entry.1.meta_iteration,
            data_iteration: entry.1.data_iteration,
        };
        out.push((entry.0, it));
        i = i + 1;
    }
    proof {
        assert(out@ =~= spec_overview_of(*tree));
    }
    out
}

/// The relay's tombstone set: the (tree, key) pairs of removed records,
/// membership by name and key.
pub struct TombstoneSet {
    items: Vec<(String, GenericKey)>,
}

impl View for TombstoneSet {
    type V = Seq<(String, GenericKey)>;

    closed spec fn view(&self) -> Seq<(String, GenericKey)> {
        self.items@
    }
}

/// Whether a (tree, key) pair is tombstoned.
pub open spec fn spec_tombstoned(s: Seq<(String, GenericKey)>, t: Seq<char>, k: GenericKey) -> bool {
    exists|i: int| 0 <= i < s.len() && (#[trigger] s[i]).0@ == t && s[i].1 == k
}

/// The tombstoned keys of one tree, in set order.
pub open spec fn spec_tree_tombstones(s: Seq<(String, GenericKey)>, t: Seq<char>) -> Seq<
    GenericKey,
>
    decreases s.len(),
{
    if s.len() == 0 {
        Seq::<GenericKey>::empty()
    } else {
        let rest = spec_tree_tombstones(s.drop_last(), t);
        if s.last().0@ == t {
            rest.push(s.last().1)
        } else {
            rest
        }
    }
}

impl TombstoneSet {
    pub fn len(&self) -> (r: usize)
        ensures
            r == self@.len(),
    {
        self.items.len()
    }

    pub fn entry_at(&self, i: usize) -> (r: &(String, GenericKey))
        requires
            i < self@.len(),
        ensures
            *r == self@[i as int],
    {
        &self.items[i]
    }

    /// The tombstoned keys of one tree.
    pub fn keys_of_tree(&self, tree: &String) -> (r: Vec<GenericKey>)
        ensures
            r@ == spec_tree_tombstones(self@, tree@),
    {
        let mut out: Vec<GenericKey> = Vec::new();
        let mut i: usize = 0;
        proof {
            assert(self@.take(0) =~= Seq::<(String, GenericKey)>::empty());
        }
        while i < self.items.len()
            invariant
                0 <= i <= self@.len(),
                out@ == spec_tree_tombstones(self@.take(i as int), tree@),
            decreases self@.len() - i,
        {
            proof {
                assert(self@.take(i as int + 1).drop_last() =~= self@.take(i as int));
                assert(self@.take(i as int + 1).last() == self@[i as int]);
            }
            if self.items[i].0.eq(tree) {
                out.push(self.items[i].1);
            }
            i = i + 1;
        }
        proof {
            assert(self@.take(self@.len() as int) =~= self@);
        }
        out
    }

    pub fn new() -> (r: TombstoneSet)
        ensures
            r@ == Seq::<(String, GenericKey)>::empty(),
    {
        TombstoneSet { items: Vec::new() }
    }

    /// Whether the pair is in the set.
    pub fn contains(&self, tree: &String, key: GenericKey) -> (r: bool)
        ensures
            r == spec_tombstoned(self@, tree@, key),
    {
        let mut i: usize = 0;
        while i < self.items.len()
            invariant
                0 <= i <= self@.len(),
                forall|j: int| 0 <= j < i ==> !((#[trigger] self@[j]).0@ == tree@ && self@[j].1 == key),
            decreases self@.len() - i,
        {
            if self.items[i].0.eq(tree) && self.items[i].1 == key {
                proof {
                    assert(spec_tombstoned(self@, tree@, key));
                }
                return true;
            }
            i = i + 1;
        }
        false
    }

    /// Marks a pair removed; idempotent.
    pub fn insert(&mut self, tree: &String, key: GenericKey)
        ensures
            spec_tombstoned(final(self)@, tree@, key),
            forall|t: Seq<char>, k: GenericKey|
                !(t == tree@ && k == key) ==> spec_tombstoned(final(self)@, t, k)
                    == spec_tombstoned(old(self)@, t, k),
    {
        if !self.contains(tree, key) {
            let owned: String = tree.clone();
            self.items.push((owned, key));
            proof {
                assert(self@[self@.len() - 1].0@ == tree@ && self@[self@.len() - 1].1 == key);
                assert forall|t: Seq<char>, k: GenericKey|
                    !(t == tree@ && k == key) implies spec_tombstoned(self@, t, k)
                    == spec_tombstoned(old(self)@, t, k) by {
                    if spec_tombstoned(self@, t, k) {
                        let i = choose|i: int|
                            0 <= i < self@.len() && (#[trigger] self@[i]).0@ == t && self@[i].1
                                == k;
                        assert(i < old(self)@.len() && old(self)@[i].0@ == t && old(self)@[i].1
                            == k);
                    }
                    if spec_tombstoned(old(self)@, t, k) {
                        let i = choose|i: int|
                            0 <= i < old(self)@.len() && (#[trigger] old(self)@[i]).0@ == t && old(
                                self,
                            )@[i].1 == k;
                        assert(self@[i].0@ == t && self@[i].1 == k);
                    }
                }
            }
        }
    }
}

/// Whether a local tree needs a record the remote overview lists: the key
/// is absent, or either local counter is behind the remote one.
pub open spec fn spec_needs_record(tree: TypedTree, k: GenericKey, it: RecordIteration) -> bool {
    match tree.spec_get(k) {
        None => true,
        Some(rec) => rec.data_iteration < it.data_iteration || rec.meta_iteration
            < it.meta_iteration,
    }
}

/// The keys of a remote overview that the local tree should request:
/// those not tombstoned whose records are missing or outdated locally, in
/// overview order.
pub open spec fn spec_missing_of(
    tree: TypedTree,
    records: Seq<(GenericKey, RecordIteration)>,
    tombs: Seq<(String, GenericKey)>,
) -> Seq<GenericKey>
    decreases records.len(),
{
    if records.len() == 0 {
        Seq::<GenericKey>::empty()
    } else {
        let rest = spec_missing_of(tree, records.drop_last(), tombs);
        let p = records.last();
        if !spec_tombstoned(tombs, tree.spec_name(), p.0) && spec_needs_record(tree, p.0, p.1) {
            rest.push(p.0)
        } else {
            rest
        }
    }
}

/// The keys of a remote overview that the tombstone set lists, in
/// overview order.
pub open spec fn spec_found_removed_of(
    tree: TypedTree,
    records: Seq<(GenericKey, RecordIteration)>,
    tombs: Seq<(String, GenericKey)>,
) -> Seq<GenericKey>
    decreases records.len(),
{
    if records.len() == 0 {
        Seq::<GenericKey>::empty()
    } else {
        let rest = spec_found_removed_of(tree, records.drop_last(), tombs);
        let p = records.last();
        if spec_tombstoned(tombs, tree.spec_name(), p.0) {
            rest.push(p.0)
        } else {
            rest
        }
    }
}

/// Walks a remote overview and splits it: keys this tree is missing or
/// holds outdated, to be requested, and keys the relay has tombstoned, to
/// be removed on the remote. A tombstoned key is never requested.
pub fn compare_and_request_missing_records(
    tree: &TypedTree,
    records: &Vec<(GenericKey, RecordIteration)>,
    removed_records: Option<&TombstoneSet>,
) -> (r: (Vec<GenericKey>, Vec<GenericKey>))
    requires
        tree.wf(),
    ensures
        ({
            let tombs = match removed_records {
                Some(ts) => ts@,
                None => Seq::<(String, GenericKey)>::empty(),
            };
            &&& r.0@ == spec_missing_of(*tree, records@, tombs)
            &&& r.1@ == spec_found_removed_of(*tree, records@, tombs)
        }),
{
    let ghost tombs = match removed_records {
        Some(ts) => ts@,
        None => Seq::<(String, GenericKey)>::empty(),
    };
    let mut missing: Vec<GenericKey> = Vec::new();
    let mut found_in_removed: Vec<GenericKey> = Vec::new();
    let mut j: usize = 0;
    proof {
        assert(records@.take(0) =~= Seq::<(GenericKey, RecordIteration)>::empty());
    }
    while j < records.len()
        invariant
            tree.wf(),
            tombs == (match removed_records {
                Some(ts) => ts@,
                None => Seq::<(String, GenericKey)>::empty(),
            }),
            0 <= j <= records@.len(),
            missing@ == spec_missing_of(*tree, records@.take(j as int), tombs),
            found_in_removed@ == spec_found_removed_of(*tree, records@.take(j as int), tombs),
        decreases records@.len() - j,
    {
        proof {
            assert(records@.take(j as int + 1).drop_last() =~= records@.take(j as int));
            assert(records@.take(j as int + 1).last() == records@[j as int]);
        }
        let key = records[j].0;
        let it = records[j].1;
        let tombstoned = match removed_records {
            Some(ts) => ts.contains(tree.tree_name(), key),
            None => false,
        };
        if tombstoned {
            found_in_removed.push(key);
        } else {
            let needs = match tree.get_record(key) {
                Some(rec) => rec.data_iteration < it.data_iteration || rec.meta_iteration
                    < it.meta_iteration,
                None => true,
            };
            if needs {
                missing.push(key);
            }
        }
        j = j + 1;
    }
    proof {
        assert(records@.take(records@.len() as int) =~= records@);
    }
    (missing, found_in_removed)
}

/// Builds the `CreatedOrChanged` events that answer a `RequestRecords`:
/// one event per requested key that exists, carrying the stored record;
/// absent keys are skipped.
pub fn collect_records(tree: &TypedTree, keys: &Vec<GenericKey>, source_addr: Option<u64>) -> (r:
    Vec<Event>)
    requires
        tree.wf(),
    ensures
        forall|x: int|
            0 <= x < r@.len() ==> ((#[trigger] r@[x]) matches Event::HotSyncEvent(e) && {
                &&& e.tree_name@ == tree.spec_name()
                &&& e.source_addr == source_addr
                &&& keys@.contains(e.key)
                &&& tree.spec_get(e.key) matches Some(rec) && e.kind@
                    == (HotSyncKindView::CreatedOrChanged {
                    meta: rec.meta@,
                    meta_iteration: rec.meta_iteration,
                    data: rec.data@,
                    data_evolution: rec.data_evolution,
                    data_iteration: rec.data_iteration,
                })
            }),
        forall|j: int|
            0 <= j < keys@.len() && tree.spec_get(#[trigger] keys@[j]) is Some ==> exists|x: int|
                0 <= x < r@.len() && ((#[trigger] r@[x]) matches Event::HotSyncEvent(e) && e.key
                    == keys@[j]),
{
    let mut out: Vec<Event> = Vec::new();
    let mut j: usize = 0;
    while j < keys.len()
        invariant
            tree.wf(),
            0 <= j <= keys@.len(),
            forall|x: int|
                0 <= x < out@.len() ==> ((#[trigger] out@[x]) matches Event::HotSyncEvent(e) && {
                    &&& e.tree_name@ == tree.spec_name()
                    &&& e.source_addr == source_addr
                    &&& keys@.contains(e.key)
                    &&& tree.spec_get(e.key) matches Some(rec) && e.kind@
                        == (HotSyncKindView::CreatedOrChanged {
                        meta: rec.meta@,
                        meta_iteration: rec.meta_iteration,
                        data: rec.data@,
                        data_evolution: rec.data_evolution,
                        data_iteration: rec.data_iteration,
                    })
                }),
            forall|jj: int|
                0 <= jj < j && tree.spec_get(#[trigger] keys@[jj]) is Some ==> exists|x: int|
                    0 <= x < out@.len() && ((#[trigger] out@[x]) matches Event::HotSyncEvent(e)
                        && e.key == keys@[jj]),
        decreases keys@.len() - j,
    {
        let key = keys[j];
        match tree.get_record(key) {
            Some(rec) => {
                let ev = Event::HotSyncEvent(
                    HotSyncEvent {
                        tree_name: tree.tree_name().clone(),
                        key,
                        source_addr,
                        kind: HotSyncEventKind::CreatedOrChanged {
                            meta: clone_meta(&rec.meta),
                            meta_iteration: rec.meta_iteration,
                            data: copy_bytes(&rec.data),
                            data_evolution: rec.data_evolution,
                            data_iteration: rec.data_iteration,
                        },
                    },
                );
                proof {
                    assert(keys@.contains(keys@[j as int]));
                }
                let ghost pre_out = out@;
                out.push(ev);
                proof {
                    assert forall|jj: int|
                        0 <= jj < j + 1 && tree.spec_get(#[trigger] keys@[jj]) is Some
                        implies exists|x: int|
                        0 <= x < out@.len() && ((#[trigger] out@[x]) matches Event::HotSyncEvent(
                            e,
                        ) && e.key == keys@[jj]) by {
                        if jj < j {
                            let w = choose|w: int|
                                0 <= w < pre_out.len() && ((#[trigger] pre_out[w]) matches Event::HotSyncEvent(
                                    e,
                                ) && e.key == keys@[jj]);
                            assert(out@[w] == pre_out[w]);
                        } else {
                            assert(out@[out@.len() - 1] matches Event::HotSyncEvent(e) && e.key
                                == keys@[jj]);
                        }
                    }
                }
            },
            None => {},
        }
        j = j + 1;
    }
    out
}

/// Turns a queued local change into the hot-sync event that announces it:
/// a removal travels as `Removed`; a meta or data change carries the
/// record as currently stored; a change whose record no longer exists
/// yields nothing.
pub fn make_hot_sync_event(
    tree: &TypedTree,
    change: &crate::sync::RecordHotChange,
    source_addr: Option<u64>,
) -> (r: Option<HotSyncEvent>)
    requires
        tree.wf(),
    ensures
        match r {
            Some(ev) => {
                &&& ev.tree_name@ == change.tree@
                &&& ev.key == change.key
                &&& ev.source_addr == source_addr
                &&& match change.kind {
                    crate::sync::ChangeKind::Remove => ev.kind@ == HotSyncKindView::Removed,
                    crate::sync::ChangeKind::ModifyMeta => tree.spec_get(change.key) matches Some(
                        rec,
                    ) && ev.kind@ == (HotSyncKindView::MetaChanged {
                        meta: rec.meta@,
                        meta_iteration: rec.meta_iteration,
                    }),
                    crate::sync::ChangeKind::CreateOrChange => tree.spec_get(change.key) matches Some(
                        rec,
                    ) && ev.kind@ == (HotSyncKindView::CreatedOrChanged {
                        meta: rec.meta@,
                        meta_iteration: rec.meta_iteration,
                        data: rec.data@,
                        data_evolution: rec.data_evolution,
                        data_iteration: rec.data_iteration,
                    }),
                }
            },
            None => !(change.kind is Remove) && tree.spec_get(change.key) is None,
        },
{
    match change.kind {
        crate::sync::ChangeKind::Remove => Some(
            HotSyncEvent {
                tree_name: change.tree.clone(),
                key: change.key,
                source_addr,
                kind: HotSyncEventKind::Removed,
            },
        ),
        crate::sync::ChangeKind::ModifyMeta => match tree.get_record(change.key) {
            Some(rec) => Some(
                HotSyncEvent {
                    tree_name: change.tree.clone(),
                    key: change.key,
                    source_addr,
                    kind: HotSyncEventKind::MetaChanged {
                        meta: clone_meta(&rec.meta),
                        meta_iteration: rec.meta_iteration,
                    },
                },
            ),
            None => None,
        },
        crate::sync::ChangeKind::CreateOrChange => match tree.get_record(change.key) {
            Some(rec) => Some(
                HotSyncEvent {
                    tree_name: change.tree.clone(),
                    key: change.key,
                    source_addr,
                    kind: HotSyncEventKind::CreatedOrChanged {
                        meta: clone_meta(&rec.meta),
                        meta_iteration: rec.meta_iteration,
                        data: copy_bytes(&rec.data),
                        data_evolution: rec.data_evolution,
                        data_iteration: rec.data_iteration,
                    },
                },
            ),
            None => None,
        },
    }
}

} // verus!
