//! Best-effort streaming of committed entity changes to QuestDB over the InfluxDB Line Protocol.
//!
//! * [`sink`] has the traits between a store and a sink, [`entity`] the data that crosses it.
//! * [`config`], [`filter`] and [`registry`] decide which deployments and entity types are exported.
//! * [`job`], [`queue`] and [`counters`] carry changes to the background writer;
//!   [`submission_laws`] states what holds of submitting them.
//! * [`writer`] holds the writer's decisions: when to connect, how long to wait, what to count;
//!   [`writer_laws`] states what holds of its runs.
//! * [`ilp`], [`rows`] and [`export`] turn the changes of a job into rows in the client's buffer;
//!   [`row_laws`] and [`job_laws`] state what holds of those rows.
//!
//! Submitting never blocks. A bounded queue feeds the writer; when it is full, when the database
//! cannot be reached or when writing fails, rows are dropped and counted. Connecting, flushing,
//! sleeping and columns that hold a double are left to the caller.

pub mod config;
pub mod counters;
pub mod entity;
pub mod export;
pub mod filter;
pub mod ilp;
pub mod job;
pub mod job_laws;
pub mod queue;
pub mod registry;
pub mod row_laws;
pub mod rows;
pub mod sink;
pub mod submission_laws;
pub mod text;
pub mod writer;
pub mod writer_laws;

pub use crate::config::{default_queue_capacity, ExportRule, QuestDbConfig};
pub use crate::counters::{Counters, Tally};
pub use crate::entity::{
    BlockPtr, BlockTime, Decimal, DeploymentHash, Entity, EntityType, Value,
};
pub use crate::export::{append_value, write_job, Appended, JobCursor, Progress};
pub use crate::filter::EntityFilter;
pub use crate::ilp::{WriteError, WriteErrorKind};
pub use crate::job::WriteJob;
pub use crate::queue::{dropped_rows, Offer};
pub use crate::registry::{QuestDbDeploymentSink, QuestDbSink, WriterTask};
pub use crate::sink::{DeploymentSink, EntityChange, EntityChangeOperation, EntitySinkRegistry};
pub use crate::writer::{Phase, WriterAction, WriterEvent, WriterState};
