//! Configuration of the sink.

use vstd::prelude::*;

verus! {

/// Default capacity of the in-memory queue feeding the background writer.
pub fn default_queue_capacity() -> (capacity: usize)
    ensures
        capacity == 10_000,
{
    10_000
}

/// Configuration for the QuestDB sink.
#[derive(Clone, Debug)]
pub struct QuestDbConfig {
    /// ILP connection string for the client, e.g. `tcp::addr=localhost:9009;`.
    pub url: String,
    /// Optional prefix prepended to every table name.
    pub table_prefix: Option<String>,
    /// Maximum number of pending write jobs before new jobs are dropped.
    pub queue_capacity: usize,
    /// Export rules. A deployment is exported if any rule matches it.
    pub export: Vec<ExportRule>,
}

/// A single export rule mapping a deployment to the entity types to export.
#[derive(Clone, Debug)]
pub struct ExportRule {
    /// Deployment id (the `Qm…` hash) to match, or `"*"` for all deployments.
    pub subgraph: String,
    /// Entity type names to export, or `["*"]` for all entity types.
    pub entities: Vec<String>,
}

} // verus!
