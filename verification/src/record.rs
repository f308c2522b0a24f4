use crate::datetime::UtcDateTime;
use crate::keys::GenericKey;
use crate::node::NodeUuid;
use crate::version::SimpleVersion;
use vstd::prelude::*;

verus! {

/// The versioning state of one record. A tree holds either only
/// `NonVersioned` records or only `Draft`/`Released` ones.
#[derive(Clone, Copy, PartialEq, Eq, Structural, Debug)]
pub enum Version {
    /// The record can be edited many times; only the latest data is kept
    /// and synchronised between nodes.
    NonVersioned,
    /// A version-controlled record that is not yet released; the number is
    /// free for user-defined draft states.
    Draft(u32),
    /// A released record whose data can never change again; the number is
    /// free for user-defined released states.
    Released(u32),
}

/// The fixed-shape metadata block of a record.
#[derive(Clone, PartialEq, Eq, Debug)]
pub struct RecordMeta {
    /// The same key the record is stored under.
    pub key: GenericKey,
    /// Versioning state; see the per-tree invariant on [`Version`].
    pub version: Version,
    /// Username of the last modifier.
    pub modified_by: String,
    /// UUID of the node that made the last modification.
    pub modified_on: NodeUuid,
    /// Last time meta or data changed.
    pub modified: UtcDateTime,
    /// Time the record was created.
    pub created: UtcDateTime,
    /// The serialization-runtime release that wrote the data.
    pub rkyv_version: SimpleVersion,
}

/// A stored record: metadata and opaque payload, each behind its own
/// monotonic iteration counter.
#[derive(Clone, PartialEq, Eq, Debug)]
pub struct Record {
    /// 0 when first created; incremented on every change to the meta
    /// block. The synchronisation tiebreaker for metadata.
    pub meta_iteration: u32,
    pub meta: RecordMeta,
    /// 0 when first created; incremented on every change to the data.
    pub data_iteration: u32,
    /// The schema evolution the data was serialized under.
    pub data_evolution: SimpleVersion,
    /// The serialized user value, opaque to the store.
    pub data: Vec<u8>,
}

/// The mathematical value of a meta block: the username as a character
/// sequence, everything else as is.
pub struct RecordMetaView {
    pub key: GenericKey,
    pub version: Version,
    pub modified_by: Seq<char>,
    pub modified_on: NodeUuid,
    pub modified: UtcDateTime,
    pub created: UtcDateTime,
    pub rkyv_version: SimpleVersion,
}

/// The mathematical value of a record: the payload as a byte sequence.
pub struct RecordView {
    pub meta_iteration: u32,
    pub meta: RecordMetaView,
    pub data_iteration: u32,
    pub data_evolution: SimpleVersion,
    pub data: Seq<u8>,
}

impl View for RecordMeta {
    type V = RecordMetaView;

    open spec fn view(&self) -> RecordMetaView {
        RecordMetaView {
            key: self.key,
            version: self.version,
            modified_by: self.modified_by@,
            modified_on: self.modified_on,
            modified: self.modified,
            created: self.created,
            rkyv_version: self.rkyv_version,
        }
    }
}

impl View for Record {
    type V = RecordView;

    open spec fn view(&self) -> RecordView {
        RecordView {
            meta_iteration: self.meta_iteration,
            meta: self.meta@,
            data_iteration: self.data_iteration,
            data_evolution: self.data_evolution,
            data: self.data@,
        }
    }
}

/// Whether a record's versioning state matches its tree's versioning flag.
pub open spec fn spec_version_matches(v: Version, versioning: bool) -> bool {
    if versioning {
        v is Draft || v is Released
    } else {
        v is NonVersioned
    }
}

impl Version {
    /// `true` exactly on `Released(_)`.
    pub fn is_released(&self) -> (r: bool)
        ensures
            r == (*self is Released),
    {
        match self {
            Version::Released(_) => true,
            _ => false,
        }
    }

    /// Whether this state belongs in a tree with the given versioning flag.
    pub fn matches_versioning(&self, versioning: bool) -> (r: bool)
        ensures
            r == spec_version_matches(*self, versioning),
    {
        match self {
            Version::NonVersioned => !versioning,
            Version::Draft(_) => versioning,
            Version::Released(_) => versioning,
        }
    }
}

} // verus!
