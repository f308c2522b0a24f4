use vstd::prelude::*;

verus! {

/// A node's 16-byte UUID, carried as its 128-bit integer form.
pub type NodeUuid = u128;

/// Relies on `uuid::Uuid::new_v4`: a freshly drawn random version-4 UUID,
/// returned as its 128-bit integer form. The value is random, so nothing is
/// promised of it.
#[verifier::external_body]
pub fn new_node_uuid() -> NodeUuid {
    uuid::Uuid::new_v4().as_u128()
}

/// The identity a database handle writes into the records it creates.
#[derive(Clone, PartialEq, Eq, Debug)]
pub struct NodeIdentity {
    /// This node's durable UUID.
    pub uuid: NodeUuid,
    /// The username recorded as the modifier of each write.
    pub username: String,
}

} // verus!
