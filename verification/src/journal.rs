use crate::keys::GenericKey;
use vstd::prelude::*;

verus! {

/// One entry of a node's local change journal.
#[derive(Clone, Copy, PartialEq, Eq, Structural, Debug)]
pub struct JournalEntry {
    pub serial: u64,
    pub key: GenericKey,
    pub action: Action,
}

/// What a journal entry records.
#[derive(Clone, Copy, PartialEq, Eq, Structural, Debug)]
pub enum Action {
    Create,
    Modify,
    Release,
    ChangeState(u32),
    AssignGlobalId(u32),
}

} // verus!
