use core::ops::Range;
use crate::keys::GenericKey;
use crate::node::NodeUuid;
use crate::opaque::OpaqueKey;
use crate::record::RecordMeta;
use crate::version::SimpleVersion;
use vstd::prelude::*;

verus! {

/// A local change the typed tree hands to the sync worker.
#[derive(Clone, PartialEq, Eq, Debug)]
pub struct RecordHotChange {
    pub tree: String,
    pub key: GenericKey,
    pub meta_iteration: u32,
    pub data_iteration: u32,
    pub kind: ChangeKind,
}

/// What a local change did to the record.
#[derive(Clone, Copy, PartialEq, Eq, Structural, Debug)]
pub enum ChangeKind {
    ModifyMeta,
    CreateOrChange,
    Remove,
}

/// One message of the sync protocol; each message travels as one binary
/// frame.
#[derive(Clone, PartialEq, Eq, Debug)]
pub enum Event {
    /// Introduces a node: its UUID and a human-readable name.
    PresentSelf { uuid: NodeUuid, readable_name: String },
    GetTreeOverview { tree: String },
    /// The iteration pair of every record a node holds in one tree.
    TreeOverview { tree: String, records: Vec<(GenericKey, RecordIteration)> },
    /// Asks the other end to stream these records back.
    RequestRecords { tree: String, keys: Vec<GenericKey> },
    HotSyncEvent(HotSyncEvent),
    /// Asks the relay for a fresh id range.
    GetKeySet { tree: String },
    /// A `[start, end)` id range issued by the relay.
    KeySet { tree: String, keys: Range<u32> },
    /// Asks the relay to enqueue this node on each key's check-out queue.
    CheckOut { tree: String, keys: Vec<GenericKey> },
    /// Asks the relay to dequeue this node from each key's queue head.
    Return { tree: String, keys: Vec<GenericKey> },
    /// The relay's authoritative queue for one key.
    CheckedOut { tree: String, key: GenericKey, queue: Vec<NodeUuid> },
}

/// One record change pushed between peers in real time.
#[derive(Clone, PartialEq, Eq, Debug)]
pub struct HotSyncEvent {
    pub tree_name: String,
    pub key: GenericKey,
    /// The relay's identifier for the originating connection, used to
    /// avoid echoing an event back to its source; `None` on events a
    /// client sends.
    pub source_addr: Option<u64>,
    pub kind: HotSyncEventKind,
}

/// The payload of a hot-sync event.
#[derive(Clone, PartialEq, Eq, Debug)]
pub enum HotSyncEventKind {
    /// Only the meta block changed.
    MetaChanged { meta: RecordMeta, meta_iteration: u32 },
    /// The record was created or its data changed.
    CreatedOrChanged {
        meta: RecordMeta,
        meta_iteration: u32,
        data: Vec<u8>,
        data_evolution: SimpleVersion,
        data_iteration: u32,
    },
    /// The record was removed.
    Removed,
}

/// The two iteration counters of one record, as listed in a tree overview.
#[derive(Clone, Copy, PartialEq, Eq, Structural, Debug)]
pub struct RecordIteration {
    pub meta_iteration: u32,
    pub data_iteration: u32,
}

/// A notification handed to the embedding program after a local or inbound
/// change.
#[derive(Clone, PartialEq, Eq, Debug)]
pub enum ChangeNotification {
    Tree { key: OpaqueKey, kind: ChangeKind },
    BorrowsChanged,
}

/// Counters the sync worker keeps for display.
#[derive(Clone, PartialEq, Eq, Debug)]
pub struct SyncClientTelemetry {
    pub connected: bool,
    pub error_message: String,
    pub bytes_sent: usize,
    pub tx_bps: usize,
    pub bytes_received: usize,
    pub rx_bps: usize,
    pub backlog: usize,
}

impl SyncClientTelemetry {
    pub fn new() -> (r: SyncClientTelemetry)
        ensures
            !r.connected,
            r.backlog == 0,
    {
        SyncClientTelemetry {
            connected: false,
            error_message: String::new(),
            bytes_sent: 0,
            tx_bps: 0,
            bytes_received: 0,
            rx_bps: 0,
            backlog: 0,
        }
    }
}

/// A command the database layer hands to the client sync worker.
#[derive(Clone, PartialEq, Eq, Debug)]
pub enum SyncClientCommand {
    /// Connect to the relay at a host and port.
    Connect(String, u16),
    Disconnect,
    /// A tree was created locally; the worker may need fresh key ranges.
    TreeCreated(String),
    /// A local record change to push to the relay.
    Change(RecordHotChange),
    /// Ask the relay to enqueue this node on the key's queue.
    CheckOut(String, GenericKey),
    /// Ask the relay to dequeue this node from the key's queue.
    Release(String, GenericKey),
}

impl ChangeKind {
    /// The change kind a hot-sync payload corresponds to.
    pub fn of_event_kind(kind: &HotSyncEventKind) -> (r: ChangeKind)
        ensures
            r == (match kind {
                HotSyncEventKind::MetaChanged { .. } => ChangeKind::ModifyMeta,
                HotSyncEventKind::CreatedOrChanged { .. } => ChangeKind::CreateOrChange,
                HotSyncEventKind::Removed => ChangeKind::Remove,
            }),
    {
        match kind {
            HotSyncEventKind::MetaChanged { .. } => ChangeKind::ModifyMeta,
            HotSyncEventKind::CreatedOrChanged { .. } => ChangeKind::CreateOrChange,
            HotSyncEventKind::Removed => ChangeKind::Remove,
        }
    }
}

} // verus!
