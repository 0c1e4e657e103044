//! Abstractions for streaming committed entity changes to an external sink.
//!
//! The contract is best-effort: submitting changes must never block the indexing pipeline and must
//! never turn a backend failure into an indexing failure.

use crate::entity::{BlockPtr, BlockTime, DeploymentHash, Entity, EntityType};
use std::sync::Arc;
use vstd::prelude::*;

verus! {

/// The kind of change that was committed for an entity in a block.
#[derive(Clone, Copy, Debug, PartialEq, Eq, Structural)]
pub enum EntityChangeOperation {
    /// A brand new entity version was inserted.
    Insert,
    /// An existing entity was overwritten with a new version.
    Overwrite,
    /// The entity was removed by the subgraph.
    Remove,
}

/// The identifier of an operation in the external store.
pub open spec fn operation_text(operation: EntityChangeOperation) -> Seq<char> {
    match operation {
        EntityChangeOperation::Insert => "insert"@,
        EntityChangeOperation::Overwrite => "overwrite"@,
        EntityChangeOperation::Remove => "remove"@,
    }
}

impl EntityChangeOperation {
    /// A stable, lowercase identifier suitable for use as a tag/symbol in the external store.
    pub fn as_str(&self) -> (text: &'static str)
        ensures
            text@ == operation_text(*self),
    {
        match self {
            EntityChangeOperation::Insert => "insert",
            EntityChangeOperation::Overwrite => "overwrite",
            EntityChangeOperation::Remove => "remove",
        }
    }
}

/// Different operations have different identifiers, each made of lowercase letters.
pub proof fn operation_texts_identify(left: EntityChangeOperation, right: EntityChangeOperation)
    ensures
        operation_text(left) == operation_text(right) ==> left == right,
        operation_text(left).len() > 0,
        forall|i: int|
            0 <= i < operation_text(left).len() ==> 'a' <= #[trigger] operation_text(left)[i] <= 'z',
{
    reveal_strlit("insert");
    reveal_strlit("overwrite");
    reveal_strlit("remove");
    assert("insert"@[0] != "remove"@[0]);
}

/// A single committed entity change, tagged with the block it happened in.
///
/// For `Remove` there is no associated data.
#[derive(Clone, Debug)]
pub struct EntityChange {
    pub entity_type: EntityType,
    pub id: String,
    pub operation: EntityChangeOperation,
    /// The full entity for `Insert`/`Overwrite`; `None` for `Remove`.
    pub data: Option<Arc<Entity>>,
    pub block_number: i32,
    pub block_time: BlockTime,
}

/// A registry that hands out a per-deployment sink. Implemented by the concrete backend.
pub trait EntitySinkRegistry: Send + Sync + 'static {
    /// The sinks that the registry hands out.
    type Sink: DeploymentSink;

    /// Return a sink for `deployment` if it is configured for export.
    ///
    /// `namespace` is a stable, unique identifier for the deployment (the Postgres schema name)
    /// that the backend can use for table naming.
    ///
    /// Returning `None` means this deployment must not be exported, so callers can skip building
    /// any change data and incur no overhead.
    fn for_deployment(&self, deployment: &DeploymentHash, namespace: &str) -> Option<
        Arc<Self::Sink>,
    >;
}

/// A per-deployment sink that receives committed entity changes.
pub trait DeploymentSink: Send + Sync + 'static {
    /// Whether `entity_type` should be exported. Used to avoid building change data for entities
    /// that would be dropped anyway.
    fn wants(&self, entity_type: &EntityType) -> bool;

    /// Submit changes that were committed for a block batch.
    ///
    /// This must not block; implementations hand the data off to a background task and return
    /// immediately. It is called only after the corresponding writes have been durably committed
    /// to the primary store.
    fn submit(&self, block_ptr: &BlockPtr, changes: Vec<EntityChange>);
}

/// An operation is known in the external store by its own name in lowercase.
pub proof fn operations_go_by_their_names(operation: EntityChangeOperation, text: &'static str)
    requires
        call_ensures(EntityChangeOperation::as_str, (&operation,), text),
    ensures
        operation is Insert ==> text@ == seq!['i', 'n', 's', 'e', 'r', 't'],
        operation is Overwrite ==> text@ == seq!['o', 'v', 'e', 'r', 'w', 'r', 'i', 't', 'e'],
        operation is Remove ==> text@ == seq!['r', 'e', 'm', 'o', 'v', 'e'],
{
    reveal_strlit("insert");
    reveal_strlit("overwrite");
    reveal_strlit("remove");
    assert("insert"@ =~= seq!['i', 'n', 's', 'e', 'r', 't']);
    assert("overwrite"@ =~= seq!['o', 'v', 'e', 'r', 'w', 'r', 'i', 't', 'e']);
    assert("remove"@ =~= seq!['r', 'e', 'm', 'o', 'v', 'e']);
}

} // verus!
