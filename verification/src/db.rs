use core::ops::Range;
use crate::alist::alist_get;
use crate::alist::alist_has;
use crate::alist::lemma_alist_get_witness;
use crate::alist::lemma_smap_get_absent;
use crate::alist::lemma_smap_get_at;
use crate::alist::lemma_smap_get_push;
use crate::alist::lemma_smap_get_update;
use crate::alist::smap_find;
use crate::alist::smap_get;
use crate::alist::smap_unique;
use crate::borrows::spec_checkout_state;
use crate::borrows::spec_queue;
use crate::borrows::RecordBorrows;
use crate::borrows::RecordCheckOutState;
use crate::common::spec_name_listed;
use crate::common::Error;
use crate::common::ManagedTrees;
use crate::datetime::spec_datetime_wf;
use crate::datetime::UtcDateTime;
use crate::key_pool::spec_clamp_u32;
use crate::key_pool::spec_keys_available;
use crate::key_pool::KeyPool;
use crate::keys::GenericKey;
use crate::evolution::collections_equal;
use crate::index::multi_named::MultiNamedIndex;
use crate::index::named::spec_rev_name;
use crate::index::named::NamedIndex;
use crate::index::Action;
use crate::index::IndexError;
use crate::evolution::spec_collections_equal;
use crate::node::new_node_uuid;
use crate::node::NodeUuid;
use crate::schema::TypeCollection;
use crate::record::spec_version_matches;
use crate::record::Record;
use crate::record::RecordMeta;
use crate::record::Version;
use crate::store::spec_store_wf;
use crate::store::RecordStore;
use crate::sync::ChangeKind;
use crate::tree::TreeDescriptor;
use crate::sync::RecordHotChange;
use crate::sync::SyncClientCommand;
use crate::version::spec_version_lt;
use crate::version::SimpleVersion;
use vstd::prelude::*;
use vstd::string::StrSliceExecFns;
use vstd::string::StringExecFns;

verus! {

/// A record as `insert` writes it: both iterations zero, the draft or
/// non-versioned state fresh, the caller's identity and clock in the meta
/// block.
pub open spec fn spec_fresh_record(
    rec: Record,
    k: GenericKey,
    versioning: bool,
    uuid: NodeUuid,
    username: Seq<char>,
    value: Seq<u8>,
    evolution: SimpleVersion,
) -> bool {
    &&& rec.meta_iteration == 0
    &&& rec.data_iteration == 0
    &&& rec.data@ == value
    &&& rec.data_evolution == evolution
    &&& rec.meta.key == k
    &&& rec.meta.version == (if versioning {
        Version::Draft(0)
    } else {
        Version::NonVersioned
    })
    &&& rec.meta.modified_by@ == username
    &&& rec.meta.modified_on == uuid
    &&& rec.meta.rkyv_version == (SimpleVersion { major: 0, minor: 7 })
    &&& rec.meta.created == rec.meta.modified
    &&& spec_datetime_wf(rec.meta.created)
}

/// A record as `update` rewrites it over an existing one: both iterations
/// one higher, the new payload, the original creation time kept.
pub open spec fn spec_updated_record(
    rec: Record,
    prev: Record,
    k: GenericKey,
    versioning: bool,
    uuid: NodeUuid,
    username: Seq<char>,
    value: Seq<u8>,
    evolution: SimpleVersion,
) -> bool {
    &&& rec.meta_iteration == prev.meta_iteration + 1
    &&& rec.data_iteration == prev.data_iteration + 1
    &&& rec.data@ == value
    &&& rec.data_evolution == evolution
    &&& rec.meta.key == k
    &&& rec.meta.version == (if versioning {
        Version::Draft(0)
    } else {
        Version::NonVersioned
    })
    &&& rec.meta.modified_by@ == username
    &&& rec.meta.modified_on == uuid
    &&& rec.meta.rkyv_version == (SimpleVersion { major: 0, minor: 7 })
    &&& rec.meta.created == prev.meta.created
    &&& spec_datetime_wf(rec.meta.modified)
}

/// One queued `Change` command with the given fields.
pub open spec fn spec_change_cmd(
    cmd: SyncClientCommand,
    tree: Seq<char>,
    k: GenericKey,
    meta_iteration: u32,
    data_iteration: u32,
    kind: ChangeKind,
) -> bool {
    cmd matches SyncClientCommand::Change(ch) && ch.tree@ == tree && ch.key == k
        && ch.meta_iteration == meta_iteration && ch.data_iteration == data_iteration && ch.kind
        == kind
}

/// The pending list grew by exactly one entry.
pub open spec fn spec_pending_grew(
    old_pending: Seq<SyncClientCommand>,
    new_pending: Seq<SyncClientCommand>,
) -> bool {
    &&& new_pending.len() == old_pending.len() + 1
    &&& new_pending.drop_last() == old_pending
}

/// A typed tree: the records of one named tree, its key pool, and the
/// commands it has queued for the sync worker. All mutation goes through
/// the check-out discipline; the embedding program drains the queued
/// commands to the worker.
pub struct TypedTree {
    tree_name: String,
    versioning: bool,
    uuid: NodeUuid,
    username: String,
    store: RecordStore,
    key_pool: KeyPool,
    pending: Vec<SyncClientCommand>,
}

impl TypedTree {
    pub closed spec fn spec_name(&self) -> Seq<char> {
        self.tree_name@
    }

    pub closed spec fn spec_versioning(&self) -> bool {
        self.versioning
    }

    pub closed spec fn spec_uuid(&self) -> NodeUuid {
        self.uuid
    }

    pub closed spec fn spec_username(&self) -> Seq<char> {
        self.username@
    }

    pub closed spec fn spec_entries(&self) -> Seq<(GenericKey, Record)> {
        self.store@
    }

    pub closed spec fn spec_pool(&self) -> Seq<Range<u32>> {
        self.key_pool@
    }

    pub closed spec fn spec_pending(&self) -> Seq<SyncClientCommand> {
        self.pending@
    }

    pub open spec fn wf(&self) -> bool {
        spec_store_wf(self.spec_entries())
    }

    /// The record stored under a key.
    pub open spec fn spec_get(&self, k: GenericKey) -> Option<Record> {
        alist_get(self.spec_entries(), k)
    }

    pub open spec fn spec_has(&self, k: GenericKey) -> bool {
        alist_has(self.spec_entries(), k)
    }

    /// The name, versioning flag and identity never change after open.
    pub open spec fn same_identity(&self, other: &TypedTree) -> bool {
        &&& self.spec_name() == other.spec_name()
        &&& self.spec_versioning() == other.spec_versioning()
        &&& self.spec_uuid() == other.spec_uuid()
        &&& self.spec_username() == other.spec_username()
    }

    /// Records, pool and queued commands all untouched.
    pub open spec fn unchanged(&self, other: &TypedTree) -> bool {
        &&& self.spec_entries() == other.spec_entries()
        &&& self.spec_pool() == other.spec_pool()
        &&& self.spec_pending() == other.spec_pending()
    }

    /// Whether this node is at the head of the key's check-out queue.
    pub open spec fn spec_checked_out(&self, borrows: &RecordBorrows, k: GenericKey) -> bool {
        spec_queue(*borrows, self.spec_name(), k).len() > 0 && spec_queue(
            *borrows,
            self.spec_name(),
            k,
        )[0] == self.spec_uuid()
    }

    pub fn new(tree_name: String, versioning: bool, uuid: NodeUuid, username: String) -> (r:
        TypedTree)
        ensures
            r.wf(),
            r.spec_name() == tree_name@,
            r.spec_versioning() == versioning,
            r.spec_uuid() == uuid,
            r.spec_username() == username@,
            r.spec_entries() == Seq::<(GenericKey, Record)>::empty(),
            r.spec_pool() == Seq::<Range<u32>>::empty(),
            r.spec_pending() == Seq::<SyncClientCommand>::empty(),
    {
        TypedTree {
            tree_name,
            versioning,
            uuid,
            username,
            store: RecordStore::new(),
            key_pool: KeyPool::new(Vec::new()),
            pending: Vec::new(),
        }
    }

    pub fn versioning(&self) -> (r: bool)
        ensures
            r == self.spec_versioning(),
    {
        self.versioning
    }

    pub fn tree_name(&self) -> (r: &String)
        ensures
            r@ == self.spec_name(),
    {
        &self.tree_name
    }

    /// How many ids the key pool still holds.
    pub fn key_pool_stats(&self) -> (r: u32)
        ensures
            r == spec_clamp_u32(spec_keys_available(self.spec_pool())),
    {
        self.key_pool.total_keys_available()
    }

    /// Appends a relay-issued id range to the pool.
    pub fn feed_key_pool(&mut self, additional_range: Range<u32>)
        ensures
            final(self).wf() == old(self).wf(),
            final(self).same_identity(old(self)),
            final(self).spec_entries() == old(self).spec_entries(),
            final(self).spec_pending() == old(self).spec_pending(),
            final(self).spec_pool() == old(self).spec_pool().push(additional_range),
    {
        self.key_pool.push(additional_range);
    }

    /// Creates a record under a fresh key `(id, 0)` taken from the pool,
    /// with both iterations zero. Fails with `OutOfKeys` exactly when the
    /// pool is empty; a pool id that is somehow already present is an
    /// internal error. On success a `CreateOrChange` change is queued for
    /// the sync worker.
    pub fn insert(&mut self, value: Vec<u8>, evolution: SimpleVersion) -> (r: Result<
        GenericKey,
        Error,
    >)
        requires
            old(self).wf(),
        ensures
            final(self).wf(),
            final(self).same_identity(old(self)),
            r matches Ok(k) ==> {
                &&& old(self).spec_pool().len() > 0
                &&& k == (GenericKey { id: old(self).spec_pool()[0].start, revision: 0 })
                &&& (old(self).spec_pool()[0].start + 1 >= old(self).spec_pool()[0].end ==> final(self).spec_pool() == old(self).spec_pool().drop_first())
                &&& (old(self).spec_pool()[0].start + 1 < old(self).spec_pool()[0].end ==> {
                    &&& final(self).spec_pool().len() == old(self).spec_pool().len()
                    &&& final(self).spec_pool()[0].start == old(self).spec_pool()[0].start + 1
                    &&& final(self).spec_pool()[0].end == old(self).spec_pool()[0].end
                    &&& forall|i: int|
                        1 <= i < old(self).spec_pool().len() ==> final(self).spec_pool()[i] == old(self).spec_pool()[i]
                })
                &&& !old(self).spec_has(k)
                &&& final(self).spec_get(k) matches Some(rec) && spec_fresh_record(
                    rec,
                    k,
                    old(self).spec_versioning(),
                    old(self).spec_uuid(),
                    old(self).spec_username(),
                    value@,
                    evolution,
                )
                &&& forall|k2: GenericKey|
                    k2 != k ==> final(self).spec_get(k2) == old(self).spec_get(k2)
                &&& spec_pending_grew(old(self).spec_pending(), final(self).spec_pending())
                &&& spec_change_cmd(
                    final(self).spec_pending().last(),
                    old(self).spec_name(),
                    k,
                    0,
                    0,
                    ChangeKind::CreateOrChange,
                )
            },
            r matches Err(e) ==> {
                &&& final(self).spec_entries() == old(self).spec_entries()
                &&& final(self).spec_pending() == old(self).spec_pending()
                &&& (e matches Error::OutOfKeys || e matches Error::Internal(_))
                &&& (e is OutOfKeys <==> old(self).spec_pool().len() == 0)
                &&& e is Internal ==> old(self).spec_pool().len() > 0 && old(self).spec_has(
                    GenericKey { id: old(self).spec_pool()[0].start, revision: 0 },
                )
            },
            r is Err && old(self).spec_pool().len() == 0 ==> final(self).spec_pool() == old(self).spec_pool(),
    {
        let mut no_indexes = TreeIndexes::new();
        let named_names: Vec<String> = Vec::new();
        let multi_names: Vec<Vec<String>> = Vec::new();
        self.insert_indexed(value, evolution, &mut no_indexes, &named_names, &multi_names)
    }

    /// Creates a record under a fresh key `(id, 0)` taken from the pool,
    /// with both iterations zero, running every registered indexer with
    /// the insert first: any indexer refusal aborts the insert before the
    /// record is written, since the index is authoritative for
    /// uniqueness. Fails with `OutOfKeys` exactly when the pool is empty;
    /// a pool id that is somehow already present is an internal error. On
    /// success a `CreateOrChange` change is queued for the sync worker.
    pub fn insert_indexed(
        &mut self,
        value: Vec<u8>,
        evolution: SimpleVersion,
        indexes: &mut TreeIndexes,
        named_names: &Vec<String>,
        multi_names: &Vec<Vec<String>>,
    ) -> (r: Result<GenericKey, Error>)
        requires
            old(self).wf(),
            old(indexes).wf(),
            named_names@.len() == old(indexes).named@.len(),
            multi_names@.len() == old(indexes).multi@.len(),
        ensures
            final(self).wf(),
            final(indexes).wf(),
            spec_indexes_shape(*old(indexes), *final(indexes)),
            final(self).same_identity(old(self)),
            r matches Ok(k) ==> spec_indexes_inserted(
                *old(indexes),
                *final(indexes),
                k,
                named_names@,
                multi_names@,
            ) && !spec_index_insert_rejected(*old(indexes), named_names@, multi_names@),
            r matches Ok(k) ==> {
                &&& old(self).spec_pool().len() > 0
                &&& k == (GenericKey { id: old(self).spec_pool()[0].start, revision: 0 })
                &&& (old(self).spec_pool()[0].start + 1 >= old(self).spec_pool()[0].end ==> final(self).spec_pool() == old(self).spec_pool().drop_first())
                &&& (old(self).spec_pool()[0].start + 1 < old(self).spec_pool()[0].end ==> {
                    &&& final(self).spec_pool().len() == old(self).spec_pool().len()
                    &&& final(self).spec_pool()[0].start == old(self).spec_pool()[0].start + 1
                    &&& final(self).spec_pool()[0].end == old(self).spec_pool()[0].end
                    &&& forall|i: int|
                        1 <= i < old(self).spec_pool().len() ==> final(self).spec_pool()[i] == old(self).spec_pool()[i]
                })
                &&& !old(self).spec_has(k)
                &&& final(self).spec_get(k) matches Some(rec) && spec_fresh_record(
                    rec,
                    k,
                    old(self).spec_versioning(),
                    old(self).spec_uuid(),
                    old(self).spec_username(),
                    value@,
                    evolution,
                )
                &&& forall|k2: GenericKey|
                    k2 != k ==> final(self).spec_get(k2) == old(self).spec_get(k2)
                &&& spec_pending_grew(old(self).spec_pending(), final(self).spec_pending())
                &&& spec_change_cmd(
                    final(self).spec_pending().last(),
                    old(self).spec_name(),
                    k,
                    0,
                    0,
                    ChangeKind::CreateOrChange,
                )
            },
            r matches Err(e) ==> {
                &&& final(self).spec_entries() == old(self).spec_entries()
                &&& final(self).spec_pending() == old(self).spec_pending()
                &&& (e matches Error::OutOfKeys || e matches Error::Internal(_) || e matches Error::Index(
                    _,
                ))
                &&& (e is OutOfKeys <==> old(self).spec_pool().len() == 0)
                &&& e is Internal ==> old(self).spec_pool().len() > 0 && old(self).spec_has(
                    GenericKey { id: old(self).spec_pool()[0].start, revision: 0 },
                )
                &&& (e is Index <==> old(self).spec_pool().len() > 0 && !old(self).spec_has(
                    GenericKey { id: old(self).spec_pool()[0].start, revision: 0 },
                ) && spec_index_insert_rejected(*old(indexes), named_names@, multi_names@))
                &&& (e is Index ==> spec_indexes_partial(
                    *old(indexes),
                    *final(indexes),
                    GenericKey { id: old(self).spec_pool()[0].start, revision: 0 },
                    Action::Insert,
                    named_names@,
                    multi_names@,
                ))
                &&& (!(e is Index) ==> final(indexes).named@ == old(indexes).named@ && final(indexes).multi@ == old(indexes).multi@)
            },
            r is Err && old(self).spec_pool().len() == 0 ==> final(self).spec_pool() == old(self).spec_pool(),
    {
        let id = match self.key_pool.get() {
            Some(id) => id,
            None => {
                return Err(Error::OutOfKeys);
            },
        };
        let key = GenericKey::new(id, 0);
        if self.store.contains_key(key) {
            return Err(Error::Internal(String::from_str("duplicate key from the key pool")));
        }
        match indexes.apply_all(key, Action::Insert, named_names, multi_names) {
            Ok(()) => {},
            Err(e) => {
                return Err(Error::Index(e));
            },
        }
        let now = UtcDateTime::now();
        let version = if self.versioning {
            Version::Draft(0)
        } else {
            Version::NonVersioned
        };
        let meta = RecordMeta {
            key,
            version,
            modified_by: self.username.clone(),
            modified_on: self.uuid,
            modified: now,
            created: now,
            rkyv_version: SimpleVersion::rkyv_version(),
        };
        let record = Record {
            meta_iteration: 0,
            meta,
            data_iteration: 0,
            data_evolution: evolution,
            data: value,
        };
        self.store.put(key, record);
        proof {
            assert(self.store.spec_get(key) == Some(record));
            assert forall|k2: GenericKey|
                k2 != key implies self.spec_get(k2) == old(self).spec_get(k2) by {
                assert(self.store.spec_get(k2) == old(self).store.spec_get(k2));
            }
        }
        let change = RecordHotChange {
            tree: self.tree_name.clone(),
            key,
            meta_iteration: 0,
            data_iteration: 0,
            kind: ChangeKind::CreateOrChange,
        };
        self.pending.push(SyncClientCommand::Change(change));
        proof {
            assert(self.pending@.drop_last() =~= old(self).pending@);
        }
        Ok(key)
    }

    /// Rewrites the record under `key` with a new payload, or creates the
    /// next revision of a released record. The caller must be at the head
    /// of the key's check-out queue; an un-versioned tree only accepts
    /// revision zero; a revision above zero requires the previous revision
    /// to exist and be released; a released record is never overwritten.
    /// On success both iterations grow and a `CreateOrChange` change is
    /// queued.
    pub fn update(
        &mut self,
        borrows: &RecordBorrows,
        key: GenericKey,
        value: Vec<u8>,
        evolution: SimpleVersion,
    ) -> (r: Result<(), Error>)
        requires
            old(self).wf(),
            borrows.wf(),
        ensures
            final(self).wf(),
            final(self).same_identity(old(self)),
            final(self).spec_pool() == old(self).spec_pool(),
            r is Err ==> final(self).unchanged(old(self)),
            !old(self).spec_checked_out(borrows, key) ==> r matches Err(Error::Usage(_)),
            r is Ok ==> old(self).spec_checked_out(borrows, key) && (key.revision > 0 ==> (old(self).spec_get(GenericKey { id: key.id, revision: (key.revision - 1) as u32 }) matches Some(
                p,
            ) && p.meta.version is Released)),
            r is Ok ==> !(old(self).spec_versioning() && (old(self).spec_get(key) matches Some(
                ex,
            ) && ex.meta.version is Released)),
            old(self).spec_checked_out(borrows, key) ==> {
                if !old(self).spec_versioning() && key.revision != 0 {
                    r matches Err(Error::Usage(_))
                } else if key.revision > 0 && !(old(self).spec_get(
                    GenericKey { id: key.id, revision: (key.revision - 1) as u32 },
                ) matches Some(p) && p.meta.version is Released) {
                    r matches Err(Error::VersioningMismatch(_))
                } else {
                    match old(self).spec_get(key) {
                        Some(existing) => {
                            if old(self).spec_versioning() && existing.meta.version is Released {
                                r matches Err(Error::VersioningMismatch(_))
                            } else if existing.meta_iteration == u32::MAX
                                || existing.data_iteration == u32::MAX {
                                r matches Err(Error::Internal(_))
                            } else {
                                {
                                    &&& r is Ok
                                    &&& final(self).spec_get(key) matches Some(rec)
                                        && spec_updated_record(
                                        rec,
                                        existing,
                                        key,
                                        old(self).spec_versioning(),
                                        old(self).spec_uuid(),
                                        old(self).spec_username(),
                                        value@,
                                        evolution,
                                    )
                                    &&& forall|k2: GenericKey|
                                        k2 != key ==> final(self).spec_get(k2) == old(self).spec_get(k2)
                                    &&& spec_pending_grew(
                                        old(self).spec_pending(),
                                        final(self).spec_pending(),
                                    )
                                    &&& spec_change_cmd(
                                        final(self).spec_pending().last(),
                                        old(self).spec_name(),
                                        key,
                                        (existing.meta_iteration + 1) as u32,
                                        (existing.data_iteration + 1) as u32,
                                        ChangeKind::CreateOrChange,
                                    )
                                }
                            }
                        },
                        None => {
                            if key.revision > 0 {
                                {
                                    &&& r is Ok
                                    &&& final(self).spec_get(key) matches Some(rec)
                                        && spec_fresh_record(
                                        rec,
                                        key,
                                        old(self).spec_versioning(),
                                        old(self).spec_uuid(),
                                        old(self).spec_username(),
                                        value@,
                                        evolution,
                                    )
                                    &&& forall|k2: GenericKey|
                                        k2 != key ==> final(self).spec_get(k2) == old(self).spec_get(k2)
                                    &&& spec_pending_grew(
                                        old(self).spec_pending(),
                                        final(self).spec_pending(),
                                    )
                                    &&& spec_change_cmd(
                                        final(self).spec_pending().last(),
                                        old(self).spec_name(),
                                        key,
                                        0,
                                        0,
                                        ChangeKind::CreateOrChange,
                                    )
                                }
                            } else {
                                r matches Err(Error::Usage(_))
                            }
                        },
                    }
                }
            },
    {
        let mut no_indexes = TreeIndexes::new();
        let named_names: Vec<String> = Vec::new();
        let multi_names: Vec<Vec<String>> = Vec::new();
        self.update_indexed(
            borrows,
            key,
            value,
            evolution,
            &mut no_indexes,
            &named_names,
            &multi_names,
        )
    }

    /// Rewrites the record under `key` with a new payload, or creates the
    /// next revision of a released record, running every registered
    /// indexer with the update once the check-out and versioning rules
    /// pass: any indexer refusal aborts the write. The caller must be at
    /// the head of the key's check-out queue; an un-versioned tree only
    /// accepts revision zero; a revision above zero requires the previous
    /// revision to exist and be released; a released record is never
    /// overwritten. On success both iterations grow and a
    /// `CreateOrChange` change is queued.
    pub fn update_indexed(
        &mut self,
        borrows: &RecordBorrows,
        key: GenericKey,
        value: Vec<u8>,
        evolution: SimpleVersion,
        indexes: &mut TreeIndexes,
        named_names: &Vec<String>,
        multi_names: &Vec<Vec<String>>,
    ) -> (r: Result<(), Error>)
        requires
            old(self).wf(),
            borrows.wf(),
            old(indexes).wf(),
            named_names@.len() == old(indexes).named@.len(),
            multi_names@.len() == old(indexes).multi@.len(),
        ensures
            final(self).wf(),
            final(indexes).wf(),
            spec_indexes_shape(*old(indexes), *final(indexes)),
            r is Ok ==> spec_indexes_updated(
                *old(indexes),
                *final(indexes),
                key,
                named_names@,
                multi_names@,
            ) && !spec_index_update_rejected(*old(indexes), key, named_names@, multi_names@),
            r matches Err(Error::Index(_)) ==> spec_indexes_partial(
                *old(indexes),
                *final(indexes),
                key,
                Action::Update,
                named_names@,
                multi_names@,
            ),
            r is Err && !(r matches Err(Error::Index(_))) ==> final(indexes).named@ == old(indexes).named@ && final(indexes).multi@ == old(indexes).multi@,
            final(self).same_identity(old(self)),
            final(self).spec_pool() == old(self).spec_pool(),
            r is Err ==> final(self).unchanged(old(self)),
            !old(self).spec_checked_out(borrows, key) ==> r matches Err(Error::Usage(_)),
            r is Ok ==> old(self).spec_checked_out(borrows, key) && (key.revision > 0 ==> (old(self).spec_get(GenericKey { id: key.id, revision: (key.revision - 1) as u32 }) matches Some(
                p,
            ) && p.meta.version is Released)),
            r is Ok ==> !(old(self).spec_versioning() && (old(self).spec_get(key) matches Some(
                ex,
            ) && ex.meta.version is Released)),
            old(self).spec_checked_out(borrows, key) ==> {
                if !old(self).spec_versioning() && key.revision != 0 {
                    r matches Err(Error::Usage(_))
                } else if key.revision > 0 && !(old(self).spec_get(
                    GenericKey { id: key.id, revision: (key.revision - 1) as u32 },
                ) matches Some(p) && p.meta.version is Released) {
                    r matches Err(Error::VersioningMismatch(_))
                } else {
                    match old(self).spec_get(key) {
                        Some(existing) => {
                            if old(self).spec_versioning() && existing.meta.version is Released {
                                r matches Err(Error::VersioningMismatch(_))
                            } else if existing.meta_iteration == u32::MAX
                                || existing.data_iteration == u32::MAX {
                                r matches Err(Error::Internal(_))
                            } else if spec_index_update_rejected(
                                *old(indexes),
                                key,
                                named_names@,
                                multi_names@,
                            ) {
                                r matches Err(Error::Index(_))
                            } else {
                                {
                                    &&& r is Ok
                                    &&& final(self).spec_get(key) matches Some(rec)
                                        && spec_updated_record(
                                        rec,
                                        existing,
                                        key,
                                        old(self).spec_versioning(),
                                        old(self).spec_uuid(),
                                        old(self).spec_username(),
                                        value@,
                                        evolution,
                                    )
                                    &&& forall|k2: GenericKey|
                                        k2 != key ==> final(self).spec_get(k2) == old(self).spec_get(k2)
                                    &&& spec_pending_grew(
                                        old(self).spec_pending(),
                                        final(self).spec_pending(),
                                    )
                                    &&& spec_change_cmd(
                                        final(self).spec_pending().last(),
                                        old(self).spec_name(),
                                        key,
                                        (existing.meta_iteration + 1) as u32,
                                        (existing.data_iteration + 1) as u32,
                                        ChangeKind::CreateOrChange,
                                    )
                                }
                            }
                        },
                        None => {
                            if key.revision > 0 {
                                if spec_index_update_rejected(
                                    *old(indexes),
                                    key,
                                    named_names@,
                                    multi_names@,
                                ) {
                                    r matches Err(Error::Index(_))
                                } else {
                                {
                                    &&& r is Ok
                                    &&& final(self).spec_get(key) matches Some(rec)
                                        && spec_fresh_record(
                                        rec,
                                        key,
                                        old(self).spec_versioning(),
                                        old(self).spec_uuid(),
                                        old(self).spec_username(),
                                        value@,
                                        evolution,
                                    )
                                    &&& forall|k2: GenericKey|
                                        k2 != key ==> final(self).spec_get(k2) == old(self).spec_get(k2)
                                    &&& spec_pending_grew(
                                        old(self).spec_pending(),
                                        final(self).spec_pending(),
                                    )
                                    &&& spec_change_cmd(
                                        final(self).spec_pending().last(),
                                        old(self).spec_name(),
                                        key,
                                        0,
                                        0,
                                        ChangeKind::CreateOrChange,
                                    )
                                }
                                }
                            } else {
                                r matches Err(Error::Usage(_))
                            }
                        },
                    }
                }
            },
    {
        if !self.is_checked_out(borrows, key) {
            return Err(Error::Usage(String::from_str("cannot update: not checked out")));
        }
        if !self.versioning && key.revision != 0 {
            return Err(Error::Usage(String::from_str("revision above zero on un-versioned tree")));
        }
        if key.revision > 0 {
            let previous = GenericKey::new(key.id, key.revision - 1);
            let prev_released = match self.store.get(previous) {
                Some(prev_rec) => prev_rec.meta.version.is_released(),
                None => false,
            };
            if !prev_released {
                return Err(
                    Error::VersioningMismatch(
                        String::from_str("previous revision is missing or not released"),
                    ),
                );
            }
        }
        let (meta_iteration, data_iteration, created) = match self.store.get(key) {
            Some(existing) => {
                if self.versioning && existing.meta.version.is_released() {
                    return Err(
                        Error::VersioningMismatch(
                            String::from_str("cannot replace a released record"),
                        ),
                    );
                }
                if existing.meta_iteration == u32::MAX || existing.data_iteration == u32::MAX {
                    return Err(Error::Internal(String::from_str("iteration counter exhausted")));
                }
                (
                    existing.meta_iteration + 1,
                    existing.data_iteration + 1,
                    existing.meta.created,
                )
            },
            None => {
                if key.revision > 0 {
                    let now = UtcDateTime::now();
                    (0u32, 0u32, now)
                } else {
                    return Err(
                        Error::Usage(String::from_str("record not found, create it first")),
                    );
                }
            },
        };
        match indexes.apply_all(key, Action::Update, named_names, multi_names) {
            Ok(()) => {},
            Err(e) => {
                return Err(Error::Index(e));
            },
        }
        let now = UtcDateTime::now();
        let created = if meta_iteration == 0 {
            now
        } else {
            created
        };
        let version = if self.versioning {
            Version::Draft(0)
        } else {
            Version::NonVersioned
        };
        let meta = RecordMeta {
            key,
            version,
            modified_by: self.username.clone(),
            modified_on: self.uuid,
            modified: now,
            created,
            rkyv_version: SimpleVersion::rkyv_version(),
        };
        let record = Record {
            meta_iteration,
            meta,
            data_iteration,
            data_evolution: evolution,
            data: value,
        };
        self.store.put(key, record);
        proof {
            assert(self.store.spec_get(key) == Some(record));
            assert forall|k2: GenericKey|
                k2 != key implies self.spec_get(k2) == old(self).spec_get(k2) by {
                assert(self.store.spec_get(k2) == old(self).store.spec_get(k2));
            }
        }
        let change = RecordHotChange {
            tree: self.tree_name.clone(),
            key,
            meta_iteration,
            data_iteration,
            kind: ChangeKind::CreateOrChange,
        };
        self.pending.push(SyncClientCommand::Change(change));
        proof {
            assert(self.pending@.drop_last() =~= old(self).pending@);
        }
        Ok(())
    }

    /// Rewrites only the versioning state in a record's meta block (how a
    /// draft is released, or a released state renamed): the meta iteration
    /// grows by one, the data and its iteration stay untouched, and a
    /// `ModifyMeta` change is queued. Check-out is required; the new state
    /// must match the tree's versioning flag.
    pub fn set_version(&mut self, borrows: &RecordBorrows, key: GenericKey, version: Version) -> (r:
        Result<(), Error>)
        requires
            old(self).wf(),
            borrows.wf(),
        ensures
            final(self).wf(),
            final(self).same_identity(old(self)),
            final(self).spec_pool() == old(self).spec_pool(),
            r is Err ==> final(self).unchanged(old(self)),
            !old(self).spec_checked_out(borrows, key) ==> r matches Err(Error::Usage(_)),
            old(self).spec_checked_out(borrows, key) ==> {
                if !spec_version_matches(version, old(self).spec_versioning()) {
                    r matches Err(Error::VersioningMismatch(_))
                } else {
                    match old(self).spec_get(key) {
                        Some(existing) => {
                            if existing.meta_iteration == u32::MAX {
                                r matches Err(Error::Internal(_))
                            } else {
                                {
                                    &&& r is Ok
                                    &&& final(self).spec_get(key) matches Some(rec) && {
                                        &&& rec.meta_iteration == existing.meta_iteration + 1
                                        &&& rec.data_iteration == existing.data_iteration
                                        &&& rec.data@ == existing.data@
                                        &&& rec.data_evolution == existing.data_evolution
                                        &&& rec.meta.key == key
                                        &&& rec.meta.version == version
                                        &&& rec.meta.created == existing.meta.created
                                        &&& rec.meta.modified_by@ == old(self).spec_username()
                                        &&& rec.meta.modified_on == old(self).spec_uuid()
                                    }
                                    &&& forall|k2: GenericKey|
                                        k2 != key ==> final(self).spec_get(k2) == old(self).spec_get(k2)
                                    &&& spec_pending_grew(
                                        old(self).spec_pending(),
                                        final(self).spec_pending(),
                                    )
                                    &&& spec_change_cmd(
                                        final(self).spec_pending().last(),
                                        old(self).spec_name(),
                                        key,
                                        (existing.meta_iteration + 1) as u32,
                                        existing.data_iteration,
                                        ChangeKind::ModifyMeta,
                                    )
                                }
                            }
                        },
                        None => r matches Err(Error::RecordNotFound),
                    }
                }
            },
    {
        if !self.is_checked_out(borrows, key) {
            return Err(Error::Usage(String::from_str("cannot change meta: not checked out")));
        }
        if !version.matches_versioning(self.versioning) {
            return Err(
                Error::VersioningMismatch(
                    String::from_str("state does not match the tree's versioning"),
                ),
            );
        }
        let (existing_mit, existing_dit, existing_evo, existing_created, data) =
            match self.store.get(key) {
            Some(existing) => {
                if existing.meta_iteration == u32::MAX {
                    return Err(Error::Internal(String::from_str("iteration counter exhausted")));
                }
                (
                    existing.meta_iteration,
                    existing.data_iteration,
                    existing.data_evolution,
                    existing.meta.created,
                    copy_bytes(&existing.data),
                )
            },
            None => {
                return Err(Error::RecordNotFound);
            },
        };
        let now = UtcDateTime::now();
        let meta = RecordMeta {
            key,
            version,
            modified_by: self.username.clone(),
            modified_on: self.uuid,
            modified: now,
            created: existing_created,
            rkyv_version: SimpleVersion::rkyv_version(),
        };
        let record = Record {
            meta_iteration: existing_mit + 1,
            meta,
            data_iteration: existing_dit,
            data_evolution: existing_evo,
            data,
        };
        self.store.put(key, record);
        proof {
            assert(self.store.spec_get(key) == Some(record));
            assert forall|k2: GenericKey|
                k2 != key implies self.spec_get(k2) == old(self).spec_get(k2) by {
                assert(self.store.spec_get(k2) == old(self).store.spec_get(k2));
            }
        }
        let change = RecordHotChange {
            tree: self.tree_name.clone(),
            key,
            meta_iteration: existing_mit + 1,
            data_iteration: existing_dit,
            kind: ChangeKind::ModifyMeta,
        };
        self.pending.push(SyncClientCommand::Change(change));
        proof {
            assert(self.pending@.drop_last() =~= old(self).pending@);
        }
        Ok(())
    }

    /// Removes the record under `key`. Check-out is required; a released
    /// record is never removed; an absent key yields `Ok(None)`. On
    /// success a `Remove` change carrying the removed record's iterations
    /// is queued.
    pub fn remove(&mut self, borrows: &RecordBorrows, key: GenericKey) -> (r: Result<
        Option<()>,
        Error,
    >)
        requires
            old(self).wf(),
            borrows.wf(),
        ensures
            final(self).wf(),
            final(self).same_identity(old(self)),
            final(self).spec_pool() == old(self).spec_pool(),
            r is Err ==> final(self).unchanged(old(self)),
            !old(self).spec_checked_out(borrows, key) ==> r matches Err(Error::Usage(_)),
            old(self).spec_checked_out(borrows, key) ==> match old(self).spec_get(key) {
                None => r matches Ok(opt) && opt is None && final(self).unchanged(old(self)),
                Some(existing) => {
                    if existing.meta.version is Released {
                        r matches Err(Error::Usage(_))
                    } else {
                        {
                            &&& r matches Ok(opt) && opt is Some
                            &&& final(self).spec_get(key) is None
                            &&& forall|k2: GenericKey|
                                k2 != key ==> final(self).spec_get(k2) == old(self).spec_get(k2)
                            &&& spec_pending_grew(
                                old(self).spec_pending(),
                                final(self).spec_pending(),
                            )
                            &&& spec_change_cmd(
                                final(self).spec_pending().last(),
                                old(self).spec_name(),
                                key,
                                existing.meta_iteration,
                                existing.data_iteration,
                                ChangeKind::Remove,
                            )
                        }
                    }
                },
            },
    {
        let mut no_indexes = TreeIndexes::new();
        let named_names: Vec<String> = Vec::new();
        let multi_names: Vec<Vec<String>> = Vec::new();
        self.remove_indexed(borrows, key, &mut no_indexes, &named_names, &multi_names)
    }

    /// Removes the record under `key`, running every registered indexer
    /// with the removal so the indexes drop its names. Check-out is
    /// required; a released record is never removed; an absent key yields
    /// `Ok(None)` with the indexes untouched. On success a `Remove`
    /// change carrying the removed record's iterations is queued.
    pub fn remove_indexed(
        &mut self,
        borrows: &RecordBorrows,
        key: GenericKey,
        indexes: &mut TreeIndexes,
        named_names: &Vec<String>,
        multi_names: &Vec<Vec<String>>,
    ) -> (r: Result<Option<()>, Error>)
        requires
            old(self).wf(),
            borrows.wf(),
            old(indexes).wf(),
            named_names@.len() == old(indexes).named@.len(),
            multi_names@.len() == old(indexes).multi@.len(),
        ensures
            final(self).wf(),
            final(indexes).wf(),
            spec_indexes_shape(*old(indexes), *final(indexes)),
            r matches Ok(opt) && opt is Some ==> spec_indexes_removed(
                *old(indexes),
                *final(indexes),
                named_names@,
                multi_names@,
            ),
            !(r matches Ok(opt) && opt is Some) ==> final(indexes).named@ == old(indexes).named@
                && final(indexes).multi@ == old(indexes).multi@,
            final(self).same_identity(old(self)),
            final(self).spec_pool() == old(self).spec_pool(),
            r is Err ==> final(self).unchanged(old(self)),
            !old(self).spec_checked_out(borrows, key) ==> r matches Err(Error::Usage(_)),
            old(self).spec_checked_out(borrows, key) ==> match old(self).spec_get(key) {
                None => r matches Ok(opt) && opt is None && final(self).unchanged(old(self)),
                Some(existing) => {
                    if existing.meta.version is Released {
                        r matches Err(Error::Usage(_))
                    } else {
                        {
                            &&& r matches Ok(opt) && opt is Some
                            &&& final(self).spec_get(key) is None
                            &&& forall|k2: GenericKey|
                                k2 != key ==> final(self).spec_get(k2) == old(self).spec_get(k2)
                            &&& spec_pending_grew(
                                old(self).spec_pending(),
                                final(self).spec_pending(),
                            )
                            &&& spec_change_cmd(
                                final(self).spec_pending().last(),
                                old(self).spec_name(),
                                key,
                                existing.meta_iteration,
                                existing.data_iteration,
                                ChangeKind::Remove,
                            )
                        }
                    }
                },
            },
    {
        if !self.is_checked_out(borrows, key) {
            return Err(Error::Usage(String::from_str("cannot remove: not checked out")));
        }
        let (meta_iteration, data_iteration) = match self.store.get(key) {
            Some(existing) => {
                if existing.meta.version.is_released() {
                    return Err(Error::Usage(String::from_str("cannot remove a released record")));
                }
                (existing.meta_iteration, existing.data_iteration)
            },
            None => {
                return Ok(None);
            },
        };
        match indexes.apply_all(key, Action::Remove, named_names, multi_names) {
            Ok(()) => {},
            Err(_) => {
                // A removal never fails an index; nothing reaches this arm.
            },
        }
        self.store.remove_key(key);
        proof {
            assert(self.store.spec_get(key) is None);
            assert forall|k2: GenericKey|
                k2 != key implies self.spec_get(k2) == old(self).spec_get(k2) by {
                assert(self.store.spec_get(k2) == old(self).store.spec_get(k2));
            }
        }
        let change = RecordHotChange {
            tree: self.tree_name.clone(),
            key,
            meta_iteration,
            data_iteration,
            kind: ChangeKind::Remove,
        };
        self.pending.push(SyncClientCommand::Change(change));
        proof {
            assert(self.pending@.drop_last() =~= old(self).pending@);
        }
        Ok(Some(()))
    }

    /// The payload stored under `key`, for a caller reading at the given
    /// evolution. An absent key is `RecordNotFound`; a stored evolution
    /// that differs from the caller's is `EvolutionMismatch`.
    pub fn get(&self, key: GenericKey, evolution: SimpleVersion) -> (r: Result<Vec<u8>, Error>)
        requires
            self.wf(),
        ensures
            match self.spec_get(key) {
                None => r matches Err(Error::RecordNotFound),
                Some(rec) => {
                    if rec.data_evolution == evolution {
                        r matches Ok(v) && v@ == rec.data@
                    } else {
                        r matches Err(Error::EvolutionMismatch(_))
                    }
                },
            },
    {
        match self.store.get(key) {
            Some(rec) => {
                if rec.data_evolution == evolution {
                    Ok(copy_bytes(&rec.data))
                } else {
                    Err(
                        Error::EvolutionMismatch(
                            String::from_str("stored evolution differs from the caller's"),
                        ),
                    )
                }
            },
            None => Err(Error::RecordNotFound),
        }
    }

    /// The meta block, both iterations and the evolution of the record
    /// under `key`.
    pub fn meta(&self, key: GenericKey) -> (r: Result<
        Option<(u32, RecordMeta, u32, SimpleVersion)>,
        Error,
    >)
        requires
            self.wf(),
        ensures
            match self.spec_get(key) {
                None => r matches Ok(opt) && opt is None,
                Some(rec) => r matches Ok(opt) && opt matches Some(q) && q.0 == rec.meta_iteration
                    && q.1 == rec.meta && q.2 == rec.data_iteration && q.3 == rec.data_evolution,
            },
    {
        match self.store.get(key) {
            Some(rec) => Ok(
                Some(
                    (rec.meta_iteration, clone_meta(&rec.meta), rec.data_iteration, rec.data_evolution),
                ),
            ),
            None => Ok(None),
        }
    }

    /// Every key of the tree, in byte order of the 8-byte key form.
    pub fn all_revisions(&self) -> (r: Vec<GenericKey>)
        ensures
            r@.len() == self.spec_entries().len(),
            forall|i: int| 0 <= i < r@.len() ==> r@[i] == self.spec_entries()[i].0,
    {
        self.store.keys()
    }

    /// Asks the sync worker to enqueue this node on the key's queue.
    pub fn check_out(&mut self, key: GenericKey)
        ensures
            final(self).wf() == old(self).wf(),
            final(self).same_identity(old(self)),
            final(self).spec_entries() == old(self).spec_entries(),
            final(self).spec_pool() == old(self).spec_pool(),
            spec_pending_grew(old(self).spec_pending(), final(self).spec_pending()),
            final(self).spec_pending().last() matches SyncClientCommand::CheckOut(t, k) && t@
                == old(self).spec_name() && k == key,
    {
        let cmd = SyncClientCommand::CheckOut(self.tree_name.clone(), key);
        self.pending.push(cmd);
        proof {
            assert(self.pending@.drop_last() =~= old(self).pending@);
        }
    }

    /// Asks the sync worker to dequeue this node from the key's queue.
    pub fn release(&mut self, key: GenericKey)
        ensures
            final(self).wf() == old(self).wf(),
            final(self).same_identity(old(self)),
            final(self).spec_entries() == old(self).spec_entries(),
            final(self).spec_pool() == old(self).spec_pool(),
            spec_pending_grew(old(self).spec_pending(), final(self).spec_pending()),
            final(self).spec_pending().last() matches SyncClientCommand::Release(t, k) && t@
                == old(self).spec_name() && k == key,
    {
        let cmd = SyncClientCommand::Release(self.tree_name.clone(), key);
        self.pending.push(cmd);
        proof {
            assert(self.pending@.drop_last() =~= old(self).pending@);
        }
    }

    /// Whether this node is at the head of the key's queue, as the local
    /// mirror sees it.
    pub fn is_checked_out(&self, borrows: &RecordBorrows, key: GenericKey) -> (r: bool)
        requires
            borrows.wf(),
        ensures
            r == self.spec_checked_out(borrows, key),
    {
        borrows.is_checked_out(&self.tree_name, key, self.uuid)
    }

    /// The full check-out state of the key as this node sees it.
    pub fn checked_out_by(&self, borrows: &RecordBorrows, key: GenericKey) -> (r:
        RecordCheckOutState)
        requires
            borrows.wf(),
        ensures
            r == spec_checkout_state(
                spec_queue(*borrows, self.spec_name(), key),
                self.spec_uuid(),
            ),
    {
        borrows.checked_out_by(&self.tree_name, key, self.uuid)
    }

    /// How many commands wait for the sync worker.
    pub fn pending_len(&self) -> (r: usize)
        ensures
            r == self.spec_pending().len(),
    {
        self.pending.len()
    }

    pub fn pending_at(&self, i: usize) -> (r: &SyncClientCommand)
        requires
            i < self.spec_pending().len(),
        ensures
            *r == self.spec_pending()[i as int],
    {
        &self.pending[i]
    }

    /// Drops all queued commands, after the embedding program has handed
    /// them to the sync worker.
    pub fn clear_pending(&mut self)
        ensures
            final(self).wf() == old(self).wf(),
            final(self).same_identity(old(self)),
            final(self).spec_entries() == old(self).spec_entries(),
            final(self).spec_pool() == old(self).spec_pool(),
            final(self).spec_pending() == Seq::<SyncClientCommand>::empty(),
    {
        self.pending.clear();
    }

    /// Writes a record as the sync path does, outside the check-out
    /// discipline; the record must carry its own key.
    pub fn put_record(&mut self, key: GenericKey, rec: Record)
        requires
            old(self).wf(),
            rec.meta.key == key,
        ensures
            final(self).wf(),
            final(self).same_identity(old(self)),
            final(self).spec_pool() == old(self).spec_pool(),
            final(self).spec_pending() == old(self).spec_pending(),
            forall|k2: GenericKey|
                #[trigger] final(self).spec_get(k2) == if k2 == key {
                    Some(rec)
                } else {
                    old(self).spec_get(k2)
                },
    {
        self.store.put(key, rec);
        proof {
            assert forall|k2: GenericKey|
                #[trigger] self.spec_get(k2) == if k2 == key {
                    Some(rec)
                } else {
                    old(self).spec_get(k2)
                } by {
                assert(self.store.spec_get(k2) == if k2 == key {
                    Some(rec)
                } else {
                    old(self).store.spec_get(k2)
                });
            }
        }
    }

    /// Deletes a record as the sync path does, outside the check-out
    /// discipline.
    pub fn remove_record(&mut self, key: GenericKey) -> (r: Option<Record>)
        requires
            old(self).wf(),
        ensures
            final(self).wf(),
            final(self).same_identity(old(self)),
            final(self).spec_pool() == old(self).spec_pool(),
            final(self).spec_pending() == old(self).spec_pending(),
            r == old(self).spec_get(key),
            old(self).spec_get(key) is None ==> final(self).spec_entries() == old(self).spec_entries(),
            forall|k2: GenericKey|
                #[trigger] final(self).spec_get(k2) == if k2 == key {
                    None::<Record>
                } else {
                    old(self).spec_get(k2)
                },
    {
        let r = self.store.remove_key(key);
        proof {
            assert forall|k2: GenericKey|
                #[trigger] self.spec_get(k2) == if k2 == key {
                    None::<Record>
                } else {
                    old(self).spec_get(k2)
                } by {
                assert(self.store.spec_get(k2) == if k2 == key {
                    None::<Record>
                } else {
                    old(self).store.spec_get(k2)
                });
            }
        }
        r
    }

    /// The record under a key, borrowed, as the sync path reads it.
    pub fn get_record(&self, key: GenericKey) -> (r: Option<&Record>)
        requires
            self.wf(),
        ensures
            match r {
                Some(rec) => self.spec_get(key) == Some(*rec),
                None => self.spec_get(key) is None,
            },
    {
        self.store.get(key)
    }

    /// The entry at one position, in byte order of the keys.
    pub fn entry_at(&self, i: usize) -> (r: &(GenericKey, Record))
        requires
            i < self.spec_entries().len(),
        ensures
            *r == self.spec_entries()[i as int],
    {
        self.store.entry_at(i)
    }

    pub fn entries_len(&self) -> (r: usize)
        ensures
            r == self.spec_entries().len(),
    {
        self.store.len()
    }
}

/// Copies a payload byte for byte.
pub fn copy_bytes(data: &Vec<u8>) -> (r: Vec<u8>)
    ensures
        r@ == data@,
{
    let mut out: Vec<u8> = Vec::new();
    let mut i: usize = 0;
    while i < data.len()
        invariant
            0 <= i <= data@.len(),
            out@ =~= data@.subrange(0, i as int),
        decreases data@.len() - i,
    {
        out.push(data[i]);
        i = i + 1;
    }
    proof {
        assert(out@ =~= data@);
    }
    out
}

/// Copies a list of keys.
pub fn copy_keys(keys: &Vec<GenericKey>) -> (r: Vec<GenericKey>)
    ensures
        r@ == keys@,
{
    let mut out: Vec<GenericKey> = Vec::new();
    let mut i: usize = 0;
    while i < keys.len()
        invariant
            0 <= i <= keys@.len(),
            out@ =~= keys@.subrange(0, i as int),
        decreases keys@.len() - i,
    {
        out.push(keys[i]);
        i = i + 1;
    }
    proof {
        assert(out@ =~= keys@);
    }
    out
}

/// Copies a meta block; `String` cloning keeps the value exactly.
pub fn clone_meta(m: &RecordMeta) -> (r: RecordMeta)
    ensures
        r == *m,
{
    RecordMeta {
        key: m.key,
        version: m.version,
        modified_by: m.modified_by.clone(),
        modified_on: m.modified_on,
        modified: m.modified,
        created: m.created,
        rkyv_version: m.rkyv_version,
    }
}

/// Copies a whole record; the payload is equal byte for byte.
pub fn clone_record(rec: &Record) -> (r: Record)
    ensures
        r.meta_iteration == rec.meta_iteration,
        r.meta == rec.meta,
        r.data_iteration == rec.data_iteration,
        r.data_evolution == rec.data_evolution,
        r.data@ == rec.data@,
{
    Record {
        meta_iteration: rec.meta_iteration,
        meta: clone_meta(&rec.meta),
        data_iteration: rec.data_iteration,
        data_evolution: rec.data_evolution,
        data: copy_bytes(&rec.data),
    }
}

/// A descriptor and every type collection it holds are well-formed.
pub open spec fn spec_descriptor_ok(d: TreeDescriptor) -> bool {
    &&& d.wf()
    &&& forall|j: int|
        0 <= j < d.spec_evolutions().len() ==> (#[trigger] d.spec_evolutions()[j]).1.refs.wf()
}

/// A database handle: this node's identity, the relay binding, the tree
/// descriptors, the managed-tree set, the check-out mirror, and commands
/// queued for the sync worker.
pub struct HillsClient {
    self_uuid: NodeUuid,
    readable_name: String,
    server_uuid: Option<NodeUuid>,
    descriptors: Vec<(String, TreeDescriptor)>,
    managed: ManagedTrees,
    borrows: RecordBorrows,
    pending: Vec<SyncClientCommand>,
}

impl HillsClient {
    pub closed spec fn spec_uuid(&self) -> NodeUuid {
        self.self_uuid
    }

    pub closed spec fn spec_readable_name(&self) -> Seq<char> {
        self.readable_name@
    }

    pub closed spec fn spec_server_uuid(&self) -> Option<NodeUuid> {
        self.server_uuid
    }

    pub closed spec fn spec_descriptors(&self) -> Seq<(String, TreeDescriptor)> {
        self.descriptors@
    }

    pub closed spec fn spec_managed(&self) -> ManagedTrees {
        self.managed
    }

    pub closed spec fn spec_borrows(&self) -> RecordBorrows {
        self.borrows
    }

    pub closed spec fn spec_pending(&self) -> Seq<SyncClientCommand> {
        self.pending@
    }

    /// The descriptor registered under a tree name.
    pub open spec fn spec_descriptor_of(&self, name: Seq<char>) -> Option<TreeDescriptor> {
        smap_get(self.spec_descriptors(), name)
    }

    pub open spec fn wf(&self) -> bool {
        &&& smap_unique(self.spec_descriptors())
        &&& forall|i: int|
            0 <= i < self.spec_descriptors().len() ==> spec_descriptor_ok(
                (#[trigger] self.spec_descriptors()[i]).1,
            )
        &&& self.spec_managed().wf()
        &&& self.spec_borrows().wf()
    }

    /// Identity and relay binding untouched.
    pub open spec fn same_node(&self, other: &HillsClient) -> bool {
        &&& self.spec_uuid() == other.spec_uuid()
        &&& self.spec_readable_name() == other.spec_readable_name()
        &&& self.spec_server_uuid() == other.spec_server_uuid()
    }

    /// Opens a database handle for a node whose UUID is already known
    /// (for an embedding program restoring a persisted identity).
    pub fn open_with_uuid(uuid: NodeUuid) -> (r: HillsClient)
        ensures
            r.wf(),
            r.spec_uuid() == uuid,
            r.spec_readable_name() == Seq::<char>::empty(),
            r.spec_server_uuid() is None,
            r.spec_descriptors() == Seq::<(String, TreeDescriptor)>::empty(),
            r.spec_managed()@ == Seq::<String>::empty(),
            r.spec_borrows()@.len() == 0,
            r.spec_pending() == Seq::<SyncClientCommand>::empty(),
    {
        HillsClient {
            self_uuid: uuid,
            readable_name: String::new(),
            server_uuid: None,
            descriptors: Vec::new(),
            managed: ManagedTrees::new(),
            borrows: RecordBorrows::new(),
            pending: Vec::new(),
        }
    }

    /// Opens a fresh database handle with a newly drawn node UUID.
    pub fn open() -> (r: HillsClient)
        ensures
            r.wf(),
            r.spec_readable_name() == Seq::<char>::empty(),
            r.spec_server_uuid() is None,
            r.spec_descriptors() == Seq::<(String, TreeDescriptor)>::empty(),
            r.spec_managed()@ == Seq::<String>::empty(),
            r.spec_borrows()@.len() == 0,
            r.spec_pending() == Seq::<SyncClientCommand>::empty(),
    {
        let uuid = new_node_uuid();
        HillsClient::open_with_uuid(uuid)
    }

    pub fn self_uuid(&self) -> (r: NodeUuid)
        ensures
            r == self.spec_uuid(),
    {
        self.self_uuid
    }

    pub fn readable_name(&self) -> (r: &String)
        ensures
            r@ == self.spec_readable_name(),
    {
        &self.readable_name
    }

    pub fn server_uuid(&self) -> (r: Option<NodeUuid>)
        ensures
            r == self.spec_server_uuid(),
    {
        self.server_uuid
    }

    /// Sets this node's human-readable name.
    pub fn set_readable_name(&mut self, name: &str) -> (r: Result<(), Error>)
        requires
            old(self).wf(),
        ensures
            final(self).wf(),
            r is Ok,
            final(self).spec_readable_name() == name@,
            final(self).spec_uuid() == old(self).spec_uuid(),
            final(self).spec_server_uuid() == old(self).spec_server_uuid(),
            final(self).spec_descriptors() == old(self).spec_descriptors(),
            final(self).spec_managed() == old(self).spec_managed(),
            final(self).spec_borrows() == old(self).spec_borrows(),
            final(self).spec_pending() == old(self).spec_pending(),
    {
        self.readable_name = name.to_owned();
        Ok(())
    }

    /// Learns or verifies the relay's UUID on a handshake: the first
    /// relay seen is remembered; a later handshake is accepted exactly
    /// when it presents the same UUID.
    pub fn note_server_uuid(&mut self, uuid: NodeUuid) -> (accepted: bool)
        requires
            old(self).wf(),
        ensures
            final(self).wf(),
            final(self).spec_uuid() == old(self).spec_uuid(),
            final(self).spec_readable_name() == old(self).spec_readable_name(),
            final(self).spec_descriptors() == old(self).spec_descriptors(),
            final(self).spec_managed() == old(self).spec_managed(),
            final(self).spec_borrows() == old(self).spec_borrows(),
            final(self).spec_pending() == old(self).spec_pending(),
            match old(self).spec_server_uuid() {
                None => accepted && final(self).spec_server_uuid() == Some(uuid),
                Some(s) => accepted == (s == uuid) && final(self).spec_server_uuid() == Some(s),
            },
    {
        match self.server_uuid {
            Some(s) => s == uuid,
            None => {
                self.server_uuid = Some(uuid);
                true
            },
        }
    }

    /// The local mirror of the check-out queues.
    pub fn borrows(&self) -> (r: &RecordBorrows)
        ensures
            *r == self.spec_borrows(),
    {
        &self.borrows
    }

    /// Replaces one key's queue with the relay's authoritative copy, as
    /// the sync worker does on an inbound `CheckedOut` event.
    pub fn apply_checked_out(&mut self, tree: &String, key: GenericKey, queue: Vec<NodeUuid>)
        requires
            old(self).wf(),
        ensures
            final(self).wf(),
            final(self).same_node(old(self)),
            final(self).spec_descriptors() == old(self).spec_descriptors(),
            final(self).spec_managed() == old(self).spec_managed(),
            final(self).spec_pending() == old(self).spec_pending(),
            forall|t: Seq<char>, k: GenericKey|
                #[trigger] crate::borrows::spec_queue(final(self).spec_borrows(), t, k) == if t
                    == tree@ && k == key {
                    queue@
                } else {
                    crate::borrows::spec_queue(old(self).spec_borrows(), t, k)
                },
    {
        self.borrows.set_queue(tree, key, queue);
    }

    pub fn pending_len(&self) -> (r: usize)
        ensures
            r == self.spec_pending().len(),
    {
        self.pending.len()
    }

    pub fn pending_at(&self, i: usize) -> (r: &SyncClientCommand)
        requires
            i < self.spec_pending().len(),
        ensures
            *r == self.spec_pending()[i as int],
    {
        &self.pending[i]
    }

    pub fn clear_pending(&mut self)
        requires
            old(self).wf(),
        ensures
            final(self).wf(),
            final(self).same_node(old(self)),
            final(self).spec_descriptors() == old(self).spec_descriptors(),
            final(self).spec_managed() == old(self).spec_managed(),
            final(self).spec_borrows() == old(self).spec_borrows(),
            final(self).spec_pending() == Seq::<SyncClientCommand>::empty(),
    {
        self.pending.clear();
    }

    /// The managed tree names.
    pub fn managed(&self) -> (r: &ManagedTrees)
        ensures
            *r == self.spec_managed(),
    {
        &self.managed
    }

    /// Opens (or creates) a user tree: refuses reserved names, records
    /// the name as managed, and holds the caller's schema against the
    /// stored descriptor. A new tree stores the caller's collection under
    /// its evolution and queues a `TreeCreated` command. An existing tree
    /// must keep its versioning flag; a caller at the stored maximum
    /// evolution must present a shape-identical collection; a caller
    /// above it registers the new evolution; a caller below it opens in
    /// backwards-compatible mode.
    pub fn open_tree(
        &mut self,
        username: &str,
        tree_name: &str,
        versioning: bool,
        evolution: SimpleVersion,
        current_tc: TypeCollection,
    ) -> (r: Result<TypedTree, Error>)
        requires
            old(self).wf(),
            current_tc.refs.wf(),
        ensures
            final(self).wf(),
            final(self).same_node(old(self)),
            final(self).spec_borrows() == old(self).spec_borrows(),
            r matches Ok(t) ==> {
                &&& t.wf()
                &&& t.spec_name() == tree_name@
                &&& t.spec_versioning() == versioning
                &&& t.spec_uuid() == old(self).spec_uuid()
                &&& t.spec_username() == username@
                &&& t.spec_entries() == Seq::<(GenericKey, Record)>::empty()
                &&& t.spec_pool() == Seq::<Range<u32>>::empty()
                &&& t.spec_pending() == Seq::<SyncClientCommand>::empty()
            },
            tree_name@.len() > 0 && tree_name@[0] == '_' ==> (r matches Err(Error::Usage(_))
                && final(self).spec_descriptors() == old(self).spec_descriptors() && final(self).spec_managed() == old(self).spec_managed() && final(self).spec_pending() == old(self).spec_pending()),
            !(tree_name@.len() > 0 && tree_name@[0] == '_') ==> {
                &&& spec_name_listed(final(self).spec_managed()@, tree_name@)
                &&& forall|n: Seq<char>|
                    n != tree_name@ ==> spec_name_listed(final(self).spec_managed()@, n)
                        == spec_name_listed(old(self).spec_managed()@, n)
                &&& forall|n: Seq<char>|
                    n != tree_name@ ==> #[trigger] final(self).spec_descriptor_of(n) == old(self).spec_descriptor_of(n)
                &&& match old(self).spec_descriptor_of(tree_name@) {
                    None => {
                        &&& r is Ok
                        &&& final(self).spec_descriptor_of(tree_name@) matches Some(d)
                            && d.versioning == versioning && d.spec_get_evolution(evolution)
                            == Some(current_tc)
                        &&& spec_pending_grew(old(self).spec_pending(), final(self).spec_pending())
                        &&& final(self).spec_pending().last() matches SyncClientCommand::TreeCreated(n)
                            && n@ == tree_name@
                    },
                    Some(d) => {
                        &&& final(self).spec_pending() == old(self).spec_pending()
                        &&& if d.versioning != versioning {
                            r matches Err(Error::VersioningMismatch(_)) && final(self).spec_descriptors() == old(self).spec_descriptors()
                        } else if spec_version_lt(d.spec_max_evolution(), evolution) {
                            r is Ok && (final(self).spec_descriptor_of(tree_name@) matches Some(
                            d2) && d2.versioning == versioning && forall|v2: SimpleVersion|
                                #[trigger] d2.spec_get_evolution(v2) == if v2 == evolution {
                                    Some(current_tc)
                                } else {
                                    d.spec_get_evolution(v2)
                                })
                        } else if evolution == d.spec_max_evolution() {
                            final(self).spec_descriptors() == old(self).spec_descriptors()
                                && match d.spec_get_evolution(evolution) {
                                Some(known) => if spec_collections_equal(known, current_tc) {
                                    r is Ok
                                } else {
                                    r matches Err(Error::EvolutionMismatch(_))
                                },
                                None => r is Ok,
                            }
                        } else {
                            r is Ok && final(self).spec_descriptors() == old(self).spec_descriptors()
                        }
                    },
                }
            },
    {
        let starts_reserved: bool = if tree_name.unicode_len() > 0 {
            tree_name.get_char(0) == '_'
        } else {
            false
        };
        if starts_reserved {
            return Err(Error::Usage(String::from_str("tree names cannot start with underscore")));
        }
        self.managed.add_to_managed(tree_name);
        let name_owned: String = tree_name.to_owned();
        match smap_find(&self.descriptors, &name_owned) {
            Some(i) => {
                proof {
                    lemma_smap_get_at(self.descriptors@, i as int, tree_name@);
                }
                if self.descriptors[i].1.versioning != versioning {
                    return Err(
                        Error::VersioningMismatch(
                            String::from_str("cannot change versioning of a tree after creation"),
                        ),
                    );
                }
                let maxe = self.descriptors[i].1.max_evolution();
                if evolution.lt(&maxe) {
                    // The caller's schema is older than the newest stored
                    // one: open in backwards-compatible mode.
                } else if maxe.lt(&evolution) {
                    let ghost old_descriptors = self.descriptors@;
                    self.descriptors[i].1.register_evolution(evolution, current_tc);
                    proof {
                        assert(self.descriptors@ =~= old_descriptors.update(
                            i as int,
                            self.descriptors@[i as int],
                        ));
                        assert(self.descriptors@[i as int].0@ == tree_name@);
                        assert forall|n: Seq<char>| #[trigger]
                            smap_get(self.descriptors@, n) == if n == tree_name@ {
                                Some(self.descriptors@[i as int].1)
                            } else {
                                smap_get(old_descriptors, n)
                            } by {
                            lemma_smap_get_update(
                                old_descriptors,
                                i as int,
                                self.descriptors@[i as int],
                                n,
                            );
                        }
                        assert forall|x: int, y: int|
                            0 <= x < y < self.descriptors@.len() implies #[trigger] self.descriptors@[x].0@
                            != #[trigger] self.descriptors@[y].0@ by {
                            assert(old_descriptors[x].0@ != old_descriptors[y].0@);
                        }
                        assert forall|j: int|
                            0 <= j < self.descriptors@.len() implies spec_descriptor_ok(
                            (#[trigger] self.descriptors@[j]).1,
                        ) by {
                            if j != i {
                                assert(self.descriptors@[j] == old_descriptors[j]);
                            } else {
                                let d_old = old_descriptors[i as int].1;
                                let d_new = self.descriptors@[j].1;
                                assert forall|e: int|
                                    0 <= e < d_new.spec_evolutions().len() implies (
                                #[trigger] d_new.spec_evolutions()[e]).1.refs.wf() by {
                                    if d_new.spec_evolutions() == d_old.spec_evolutions().push(
                                        (evolution, current_tc),
                                    ) {
                                        if e < d_old.spec_evolutions().len() {
                                            assert(d_new.spec_evolutions()[e]
                                                == d_old.spec_evolutions()[e]);
                                        }
                                    } else {
                                        let w = choose|w: int|
                                            0 <= w < d_old.spec_evolutions().len()
                                                && d_new.spec_evolutions()
                                                == d_old.spec_evolutions().update(
                                                w,
                                                (evolution, current_tc),
                                            );
                                        if e != w {
                                            assert(d_new.spec_evolutions()[e]
                                                == d_old.spec_evolutions()[e]);
                                        }
                                    }
                                }
                            }
                        }
                    }
                } else {
                    proof {
                        assert(evolution == self.descriptors@[i as int].1.spec_max_evolution());
                    }
                    let known = self.descriptors[i].1.get_evolution(evolution);
                    match known {
                        Some(known_tc) => {
                            proof {
                                let evs = self.descriptors@[i as int].1.spec_evolutions();
                                lemma_alist_get_witness(evs, evolution);
                            }
                            if !collections_equal(known_tc, &current_tc) {
                                return Err(
                                    Error::EvolutionMismatch(
                                        String::from_str(
                                            "type definitions changed against the stored collection",
                                        ),
                                    ),
                                );
                            }
                        },
                        None => {
                            // The stored descriptor has never seen this
                            // exact evolution; accept and leave it as is.
                        },
                    }
                }
            },
            None => {
                proof {
                    lemma_smap_get_absent(self.descriptors@, tree_name@);
                }
                let descriptor = TreeDescriptor::new(evolution, current_tc, versioning);
                let ghost old_descriptors = self.descriptors@;
                self.descriptors.push((name_owned, descriptor));
                self.pending.push(SyncClientCommand::TreeCreated(tree_name.to_owned()));
                proof {
                    assert(self.pending@.drop_last() =~= old(self).pending@);
                    assert forall|n: Seq<char>| #[trigger]
                        smap_get(self.descriptors@, n) == if n == tree_name@ {
                            Some(self.descriptors@[self.descriptors@.len() - 1].1)
                        } else {
                            smap_get(old_descriptors, n)
                        } by {
                        lemma_smap_get_push(
                            old_descriptors,
                            self.descriptors@[self.descriptors@.len() - 1],
                            n,
                        );
                    }
                    assert forall|x: int, y: int|
                        0 <= x < y < self.descriptors@.len() implies #[trigger] self.descriptors@[x].0@
                        != #[trigger] self.descriptors@[y].0@ by {
                        if y < self.descriptors@.len() - 1 {
                            assert(old_descriptors[x].0@ != old_descriptors[y].0@);
                        } else {
                            assert(old_descriptors[x].0@ != tree_name@);
                        }
                    }
                    assert forall|j: int|
                        0 <= j < self.descriptors@.len() implies spec_descriptor_ok(
                        (#[trigger] self.descriptors@[j]).1,
                    ) by {
                        if j < self.descriptors@.len() - 1 {
                            assert(self.descriptors@[j] == old_descriptors[j]);
                        }
                    }
                }
            },
        }
        let t = TypedTree::new(
            tree_name.to_owned(),
            versioning,
            self.self_uuid,
            username.to_owned(),
        );
        Ok(t)
    }
}


/// The indexes registered on one tree, run against every mutation so the
/// record write can be aborted when an index refuses it: the index is
/// authoritative for uniqueness. The extractors that turn a payload into
/// its names run in the embedding program; the operations here take the
/// extracted names, one per named index and one list per multi-named
/// index.
pub struct TreeIndexes {
    pub named: Vec<NamedIndex>,
    pub multi: Vec<MultiNamedIndex>,
}

/// Index counts and settings untouched.
pub open spec fn spec_indexes_shape(pre: TreeIndexes, post: TreeIndexes) -> bool {
    &&& post.named@.len() == pre.named@.len()
    &&& post.multi@.len() == pre.multi@.len()
    &&& forall|i: int|
        0 <= i < pre.named@.len() ==> (#[trigger] post.named@[i]).spec_settings()
            == pre.named@[i].spec_settings()
    &&& forall|i: int|
        0 <= i < pre.multi@.len() ==> (#[trigger] post.multi@[i]).spec_settings()
            == pre.multi@[i].spec_settings()
}

/// Whether some index refuses an insert: one of the names is already
/// taken.
pub open spec fn spec_index_insert_rejected(
    pre: TreeIndexes,
    named_names: Seq<String>,
    multi_names: Seq<Vec<String>>,
) -> bool {
    ||| exists|i: int|
        0 <= i < pre.named@.len() && crate::alist::smap_has(
            (#[trigger] pre.named@[i])@,
            pre.named@[i].spec_post(named_names[i]@),
        )
    ||| exists|i: int, j: int|
        0 <= i < pre.multi@.len() && 0 <= j < multi_names[i]@.len() && crate::alist::smap_has(
            (#[trigger] pre.multi@[i])@,
            pre.multi@[i].spec_post((#[trigger] multi_names[i]@[j])@),
        )
}

/// Whether some index refuses an update: a named index does not know the
/// key, or a new name is owned by a different key.
pub open spec fn spec_index_update_rejected(
    pre: TreeIndexes,
    key: GenericKey,
    named_names: Seq<String>,
    multi_names: Seq<Vec<String>>,
) -> bool {
    ||| exists|i: int|
        0 <= i < pre.named@.len() && (match spec_rev_name((#[trigger] pre.named@[i])@, key) {
            None => true,
            Some(old_name) => old_name != pre.named@[i].spec_post(named_names[i]@)
                && crate::alist::smap_has(
                pre.named@[i]@,
                pre.named@[i].spec_post(named_names[i]@),
            ),
        })
    ||| exists|i: int, j: int|
        0 <= i < pre.multi@.len() && 0 <= j < multi_names[i]@.len() && (match crate::alist::smap_get(
            (#[trigger] pre.multi@[i])@,
            pre.multi@[i].spec_post((#[trigger] multi_names[i]@[j])@),
        ) {
            Some(k2) => k2 != key,
            None => false,
        })
}

/// Every index holds the new names of the freshly inserted key, and
/// nothing else moved.
pub open spec fn spec_indexes_inserted(
    pre: TreeIndexes,
    post: TreeIndexes,
    key: GenericKey,
    named_names: Seq<String>,
    multi_names: Seq<Vec<String>>,
) -> bool {
    &&& spec_indexes_shape(pre, post)
    &&& forall|i: int, n: Seq<char>|
        0 <= i < pre.named@.len() ==> #[trigger] crate::alist::smap_get((post.named@[i])@, n)
            == if n == pre.named@[i].spec_post(named_names[i]@) {
            Some(key)
        } else {
            crate::alist::smap_get(pre.named@[i]@, n)
        }
    &&& forall|i: int, n: Seq<char>|
        0 <= i < pre.multi@.len() ==> #[trigger] crate::alist::smap_get((post.multi@[i])@, n)
            == if pre.multi@[i].spec_names_contain(multi_names[i]@, n) {
            Some(key)
        } else {
            crate::alist::smap_get(pre.multi@[i]@, n)
        }
}

/// Every index replaced the key's names by the new ones, and nothing else
/// moved.
pub open spec fn spec_indexes_updated(
    pre: TreeIndexes,
    post: TreeIndexes,
    key: GenericKey,
    named_names: Seq<String>,
    multi_names: Seq<Vec<String>>,
) -> bool {
    &&& spec_indexes_shape(pre, post)
    &&& forall|i: int, n: Seq<char>|
        0 <= i < pre.named@.len() ==> #[trigger] crate::alist::smap_get((post.named@[i])@, n)
            == (match spec_rev_name(pre.named@[i]@, key) {
            Some(old_name) => if n == pre.named@[i].spec_post(named_names[i]@) {
                Some(key)
            } else if n == old_name {
                None
            } else {
                crate::alist::smap_get(pre.named@[i]@, n)
            },
            None => crate::alist::smap_get(pre.named@[i]@, n),
        })
    &&& forall|i: int, n: Seq<char>|
        0 <= i < pre.multi@.len() ==> #[trigger] crate::alist::smap_get((post.multi@[i])@, n)
            == if pre.multi@[i].spec_names_contain(multi_names[i]@, n) {
            Some(key)
        } else if crate::alist::smap_get(pre.multi@[i]@, n) == Some(key) {
            None::<GenericKey>
        } else {
            crate::alist::smap_get(pre.multi@[i]@, n)
        }
}

/// Every index dropped the listed names, and nothing else moved.
pub open spec fn spec_indexes_removed(
    pre: TreeIndexes,
    post: TreeIndexes,
    named_names: Seq<String>,
    multi_names: Seq<Vec<String>>,
) -> bool {
    &&& spec_indexes_shape(pre, post)
    &&& forall|i: int, n: Seq<char>|
        0 <= i < pre.named@.len() ==> #[trigger] crate::alist::smap_get((post.named@[i])@, n)
            == if n == pre.named@[i].spec_post(named_names[i]@) {
            None::<GenericKey>
        } else {
            crate::alist::smap_get(pre.named@[i]@, n)
        }
    &&& forall|i: int, n: Seq<char>|
        0 <= i < pre.multi@.len() ==> #[trigger] crate::alist::smap_get((post.multi@[i])@, n)
            == if pre.multi@[i].spec_names_contain(multi_names[i]@, n) {
            None::<GenericKey>
        } else {
            crate::alist::smap_get(pre.multi@[i]@, n)
        }
}

/// Each index either moved as the action says or is still exactly as it
/// was: what holds after a run that an index aborted partway.
pub open spec fn spec_indexes_partial(
    pre: TreeIndexes,
    post: TreeIndexes,
    key: GenericKey,
    action: Action,
    named_names: Seq<String>,
    multi_names: Seq<Vec<String>>,
) -> bool {
    &&& spec_indexes_shape(pre, post)
    &&& forall|i: int|
        0 <= i < pre.named@.len() ==> ((#[trigger] post.named@[i])@ == pre.named@[i]@ || forall|
            n: Seq<char>,
        |
            #[trigger] crate::alist::smap_get((post.named@[i])@, n) == (match action {
                Action::Insert => if n == pre.named@[i].spec_post(named_names[i]@) {
                    Some(key)
                } else {
                    crate::alist::smap_get(pre.named@[i]@, n)
                },
                Action::Update => match spec_rev_name(pre.named@[i]@, key) {
                    Some(old_name) => if n == pre.named@[i].spec_post(named_names[i]@) {
                        Some(key)
                    } else if n == old_name {
                        None
                    } else {
                        crate::alist::smap_get(pre.named@[i]@, n)
                    },
                    None => crate::alist::smap_get(pre.named@[i]@, n),
                },
                Action::Remove => if n == pre.named@[i].spec_post(named_names[i]@) {
                    None::<GenericKey>
                } else {
                    crate::alist::smap_get(pre.named@[i]@, n)
                },
            }))
    &&& forall|i: int|
        0 <= i < pre.multi@.len() ==> ((#[trigger] post.multi@[i])@ == pre.multi@[i]@ || forall|
            n: Seq<char>,
        |
            #[trigger] crate::alist::smap_get((post.multi@[i])@, n) == (match action {
                Action::Insert => if pre.multi@[i].spec_names_contain(multi_names[i]@, n) {
                    Some(key)
                } else {
                    crate::alist::smap_get(pre.multi@[i]@, n)
                },
                Action::Update => if pre.multi@[i].spec_names_contain(multi_names[i]@, n) {
                    Some(key)
                } else if crate::alist::smap_get(pre.multi@[i]@, n) == Some(key) {
                    None::<GenericKey>
                } else {
                    crate::alist::smap_get(pre.multi@[i]@, n)
                },
                Action::Remove => if pre.multi@[i].spec_names_contain(multi_names[i]@, n) {
                    None::<GenericKey>
                } else {
                    crate::alist::smap_get(pre.multi@[i]@, n)
                },
            }))
}

impl TreeIndexes {
    pub open spec fn wf(&self) -> bool {
        &&& forall|i: int| 0 <= i < self.named@.len() ==> (#[trigger] self.named@[i]).wf()
        &&& forall|i: int| 0 <= i < self.multi@.len() ==> (#[trigger] self.multi@[i]).wf()
    }

    pub fn new() -> (r: TreeIndexes)
        ensures
            r.wf(),
            r.named@.len() == 0,
            r.multi@.len() == 0,
    {
        TreeIndexes { named: Vec::new(), multi: Vec::new() }
    }

    /// Runs one mutation through every index, in order, stopping at the
    /// first refusal: an insert fails exactly when a name is taken, an
    /// update exactly when a named index does not know the key or a name
    /// belongs to another key, a removal never. Indexes already passed
    /// keep their new state, exactly as a sequential run leaves them.
    pub fn apply_all(
        &mut self,
        key: GenericKey,
        action: Action,
        named_names: &Vec<String>,
        multi_names: &Vec<Vec<String>>,
    ) -> (r: Result<(), IndexError>)
        requires
            old(self).wf(),
            named_names@.len() == old(self).named@.len(),
            multi_names@.len() == old(self).multi@.len(),
        ensures
            final(self).wf(),
            spec_indexes_shape(*old(self), *final(self)),
            match action {
                Action::Insert => {
                    &&& (r is Err <==> spec_index_insert_rejected(
                        *old(self),
                        named_names@,
                        multi_names@,
                    ))
                    &&& (r is Ok ==> spec_indexes_inserted(
                        *old(self),
                        *final(self),
                        key,
                        named_names@,
                        multi_names@,
                    ))
                },
                Action::Update => {
                    &&& (r is Err <==> spec_index_update_rejected(
                        *old(self),
                        key,
                        named_names@,
                        multi_names@,
                    ))
                    &&& (r is Ok ==> spec_indexes_updated(
                        *old(self),
                        *final(self),
                        key,
                        named_names@,
                        multi_names@,
                    ))
                },
                Action::Remove => r is Ok && spec_indexes_removed(
                    *old(self),
                    *final(self),
                    named_names@,
                    multi_names@,
                ),
            },
            r is Err ==> spec_indexes_partial(
                *old(self),
                *final(self),
                key,
                action,
                named_names@,
                multi_names@,
            ),
    {
        let mut i: usize = 0;
        while i < self.named.len()
            invariant
                old(self).wf(),
                self.wf(),
                named_names@.len() == old(self).named@.len(),
                multi_names@.len() == old(self).multi@.len(),
                self.named@.len() == old(self).named@.len(),
                self.multi@ == old(self).multi@,
                0 <= i <= self.named@.len(),
                forall|x: int|
                    0 <= x < self.named@.len() ==> (#[trigger] self.named@[x]).spec_settings()
                        == old(self).named@[x].spec_settings(),
                forall|x: int| i <= x < self.named@.len() ==> self.named@[x] == old(self).named@[x],
                forall|x: int|
                    0 <= x < i ==> !spec_named_rejects(
                        #[trigger] old(self).named@[x],
                        key,
                        action,
                        named_names@[x],
                    ),
                forall|x: int, n: Seq<char>|
                    0 <= x < i ==> #[trigger] crate::alist::smap_get((self.named@[x])@, n)
                        == spec_named_applied(old(self).named@[x], key, action, named_names@[x], n),
            decreases self.named@.len() - i,
        {
            let ghost pre_named = self.named@;
            let r = self.named[i].apply(key, named_names[i].as_str(), action);
            proof {
                assert(pre_named[i as int] == old(self).named@[i as int]);
                if r is Ok {
                    if action is Update && spec_rev_name(old(self).named@[i as int]@, key)
                        is Some {
                        crate::index::named::lemma_rev_name_lookup(
                            old(self).named@[i as int]@,
                            key,
                        );
                    }
                    assert forall|n: Seq<char>|
                        #[trigger] crate::alist::smap_get((self.named@[i as int])@, n)
                        == spec_named_applied(
                        old(self).named@[i as int],
                        key,
                        action,
                        named_names@[i as int],
                        n,
                    ) by {}
                    assert forall|x: int, n: Seq<char>|
                        0 <= x < i + 1 implies #[trigger] crate::alist::smap_get(
                        (self.named@[x])@,
                        n,
                    ) == spec_named_applied(
                        old(self).named@[x],
                        key,
                        action,
                        named_names@[x],
                        n,
                    ) by {
                        if x < i {
                            assert(self.named@[x] == pre_named[x]);
                        }
                    }
                } else {
                    assert(spec_named_rejects(
                        old(self).named@[i as int],
                        key,
                        action,
                        named_names@[i as int],
                    ));
                }
            }
            match r {
                Ok(()) => {},
                Err(e) => {
                    proof {
                        assert forall|x: int|
                            0 <= x < self.named@.len() implies (#[trigger] self.named@[x]).wf()
                            && self.named@[x].spec_settings()
                            == old(self).named@[x].spec_settings() by {
                            if x != i {
                                assert(self.named@[x] == pre_named[x]);
                            }
                        }
                        assert forall|x: int|
                            0 <= x < old(self).named@.len() implies ((
                        #[trigger] self.named@[x])@ == old(self).named@[x]@ || forall|n: Seq<char>|
                            #[trigger] crate::alist::smap_get((self.named@[x])@, n)
                                == spec_named_applied(
                                old(self).named@[x],
                                key,
                                action,
                                named_names@[x],
                                n,
                            )) by {
                            if x > i {
                                assert(self.named@[x] == pre_named[x]);
                            } else if x == i {
                                assert(self.named@[i as int]@ == old(self).named@[i as int]@);
                            }
                        }
                        if action is Remove {
                            assert(false);
                        }
                    }
                    return Err(e);
                },
            }
            i = i + 1;
        }
        let mut i: usize = 0;
        while i < self.multi.len()
            invariant
                old(self).wf(),
                self.wf(),
                named_names@.len() == old(self).named@.len(),
                multi_names@.len() == old(self).multi@.len(),
                self.named@.len() == old(self).named@.len(),
                self.multi@.len() == old(self).multi@.len(),
                forall|x: int|
                    0 <= x < self.named@.len() ==> (#[trigger] self.named@[x]).spec_settings()
                        == old(self).named@[x].spec_settings(),
                forall|x: int|
                    0 <= x < self.multi@.len() ==> (#[trigger] self.multi@[x]).spec_settings()
                        == old(self).multi@[x].spec_settings(),
                forall|x: int|
                    0 <= x < self.named@.len() ==> !spec_named_rejects(
                        #[trigger] old(self).named@[x],
                        key,
                        action,
                        named_names@[x],
                    ),
                forall|x: int, n: Seq<char>|
                    0 <= x < self.named@.len() ==> #[trigger] crate::alist::smap_get(
                        (self.named@[x])@,
                        n,
                    ) == spec_named_applied(old(self).named@[x], key, action, named_names@[x], n),
                0 <= i <= self.multi@.len(),
                forall|x: int| i <= x < self.multi@.len() ==> self.multi@[x] == old(self).multi@[x],
                forall|x: int|
                    0 <= x < i ==> !spec_multi_rejects(
                        #[trigger] old(self).multi@[x],
                        key,
                        action,
                        multi_names@[x],
                    ),
                forall|x: int, n: Seq<char>|
                    0 <= x < i ==> #[trigger] crate::alist::smap_get((self.multi@[x])@, n)
                        == spec_multi_applied(old(self).multi@[x], key, action, multi_names@[x], n),
            decreases self.multi@.len() - i,
        {
            let ghost pre_multi = self.multi@;
            let r = self.multi[i].apply(key, &multi_names[i], action);
            proof {
                assert(pre_multi[i as int] == old(self).multi@[i as int]);
                if r is Ok {
                    assert forall|x: int, n: Seq<char>|
                        0 <= x < i + 1 implies #[trigger] crate::alist::smap_get(
                        (self.multi@[x])@,
                        n,
                    ) == spec_multi_applied(
                        old(self).multi@[x],
                        key,
                        action,
                        multi_names@[x],
                        n,
                    ) by {
                        if x < i {
                            assert(self.multi@[x] == pre_multi[x]);
                        }
                    }
                } else {
                    assert(spec_multi_rejects(
                        old(self).multi@[i as int],
                        key,
                        action,
                        multi_names@[i as int],
                    ));
                }
            }
            match r {
                Ok(()) => {},
                Err(e) => {
                    proof {
                        assert forall|x: int|
                            0 <= x < self.multi@.len() implies (#[trigger] self.multi@[x]).wf()
                            && self.multi@[x].spec_settings()
                            == old(self).multi@[x].spec_settings() by {
                            if x != i {
                                assert(self.multi@[x] == pre_multi[x]);
                            }
                        }
                        assert forall|x: int|
                            0 <= x < old(self).multi@.len() implies ((
                        #[trigger] self.multi@[x])@ == old(self).multi@[x]@ || forall|n: Seq<char>|
                            #[trigger] crate::alist::smap_get((self.multi@[x])@, n)
                                == spec_multi_applied(
                                old(self).multi@[x],
                                key,
                                action,
                                multi_names@[x],
                                n,
                            )) by {
                            if x > i {
                                assert(self.multi@[x] == pre_multi[x]);
                            } else if x == i {
                                assert(self.multi@[i as int]@ == old(self).multi@[i as int]@);
                            }
                        }
                        if action is Remove {
                            assert(false);
                        }
                    }
                    return Err(e);
                },
            }
            i = i + 1;
        }
        Ok(())
    }
}

/// Whether one named index refuses the action for this key and name.
pub open spec fn spec_named_rejects(
    idx: NamedIndex,
    key: GenericKey,
    action: Action,
    name: String,
) -> bool {
    match action {
        Action::Insert => crate::alist::smap_has(idx@, idx.spec_post(name@)),
        Action::Update => match spec_rev_name(idx@, key) {
            None => true,
            Some(old_name) => old_name != idx.spec_post(name@) && crate::alist::smap_has(
                idx@,
                idx.spec_post(name@),
            ),
        },
        Action::Remove => false,
    }
}

/// The lookup of one named index after the action went through.
pub open spec fn spec_named_applied(
    idx: NamedIndex,
    key: GenericKey,
    action: Action,
    name: String,
    n: Seq<char>,
) -> Option<GenericKey> {
    match action {
        Action::Insert => if n == idx.spec_post(name@) {
            Some(key)
        } else {
            crate::alist::smap_get(idx@, n)
        },
        Action::Update => match spec_rev_name(idx@, key) {
            Some(old_name) => if n == idx.spec_post(name@) {
                Some(key)
            } else if n == old_name {
                None
            } else {
                crate::alist::smap_get(idx@, n)
            },
            None => crate::alist::smap_get(idx@, n),
        },
        Action::Remove => if n == idx.spec_post(name@) {
            None::<GenericKey>
        } else {
            crate::alist::smap_get(idx@, n)
        },
    }
}

/// Whether one multi-named index refuses the action for this key and name
/// list.
pub open spec fn spec_multi_rejects(
    idx: MultiNamedIndex,
    key: GenericKey,
    action: Action,
    names: Vec<String>,
) -> bool {
    match action {
        Action::Insert => exists|j: int|
            0 <= j < names@.len() && crate::alist::smap_has(
                idx@,
                idx.spec_post((#[trigger] names@[j])@),
            ),
        Action::Update => exists|j: int|
            0 <= j < names@.len() && (match crate::alist::smap_get(
                idx@,
                idx.spec_post((#[trigger] names@[j])@),
            ) {
                Some(k2) => k2 != key,
                None => false,
            }),
        Action::Remove => false,
    }
}

/// The lookup of one multi-named index after the action went through.
pub open spec fn spec_multi_applied(
    idx: MultiNamedIndex,
    key: GenericKey,
    action: Action,
    names: Vec<String>,
    n: Seq<char>,
) -> Option<GenericKey> {
    match action {
        Action::Insert => if idx.spec_names_contain(names@, n) {
            Some(key)
        } else {
            crate::alist::smap_get(idx@, n)
        },
        Action::Update => if idx.spec_names_contain(names@, n) {
            Some(key)
        } else if crate::alist::smap_get(idx@, n) == Some(key) {
            None::<GenericKey>
        } else {
            crate::alist::smap_get(idx@, n)
        },
        Action::Remove => if idx.spec_names_contain(names@, n) {
            None::<GenericKey>
        } else {
            crate::alist::smap_get(idx@, n)
        },
    }
}

} // verus!
