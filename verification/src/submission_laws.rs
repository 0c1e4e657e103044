//! What holds of submissions, one after the other and through several sinks.

use crate::config::QuestDbConfig;
use crate::counters::Tally;
use crate::entity::{BlockPtr, DeploymentHash};
use crate::job::WriteJob;
use crate::queue::{offer_tally, receiver_channel, Offer};
use crate::registry::{QuestDbDeploymentSink, QuestDbSink, WriterTask};
use crate::sink::{DeploymentSink, EntityChange, EntitySinkRegistry};
use std::sync::atomic::{AtomicU64, Ordering};
use std::sync::Arc;
use vstd::prelude::*;

verus! {

/// Sinks that one registry hands out, for the same deployment or for different ones, feed the same
/// queue, whose capacity they share, and the same counters.
pub proof fn sinks_of_a_registry_share_queue_and_counters(
    registry: QuestDbSink,
    first: (DeploymentHash, &str, Arc<QuestDbDeploymentSink>),
    second: (DeploymentHash, &str, Arc<QuestDbDeploymentSink>),
)
    requires
        call_ensures(
            QuestDbSink::for_deployment,
            (&registry, &first.0, first.1),
            Some(first.2),
        ),
        call_ensures(
            QuestDbSink::for_deployment,
            (&registry, &second.0, second.1),
            Some(second.2),
        ),
    ensures
        first.2.channel() == second.2.channel(),
        first.2.capacity() == second.2.capacity(),
        first.2.counters() == second.2.counters(),
        first.2.channel() == registry.channel(),
        first.2.capacity() == registry.capacity(),
        first.2.counters() == registry.counters(),
{
}

/// One submission: the changes of a block batch, the job that carried them and what the queue did
/// with it. Without changes there is no job, and the last two mean nothing.
pub struct Submission {
    pub sink: QuestDbDeploymentSink,
    pub block_ptr: BlockPtr,
    pub changes: Vec<EntityChange>,
    pub job: WriteJob,
    pub outcome: Offer,
}

impl Submission {
    /// Whether `submit` can have come to this.
    pub open spec fn possible(self) -> bool {
        self.changes@.len() > 0 ==> self.sink.handed_over(
            self.block_ptr,
            self.changes,
            self.job,
            self.outcome,
        )
    }

    /// What the submission adds to the counters.
    pub open spec fn tally(self) -> Tally {
        if self.changes@.len() == 0 {
            Tally { rows_sent: 0, rows_dropped: 0, flush_errors: 0 }
        } else {
            offer_tally(self.outcome)
        }
    }

    /// The job that the submission puts in the queue, if any.
    pub open spec fn queued(self) -> Seq<WriteJob> {
        if self.changes@.len() > 0 && self.outcome is Queued {
            seq![self.job]
        } else {
            Seq::empty()
        }
    }
}

/// Every call of `submit` comes to some submission, whose tally it adds to the sink's counters.
pub proof fn submit_makes_a_submission(
    sink: QuestDbDeploymentSink,
    block_ptr: BlockPtr,
    changes: Vec<EntityChange>,
)
    requires
        call_ensures(QuestDbDeploymentSink::submit, (&sink, &block_ptr, changes), ()),
    ensures
        exists|call: Submission|
            {
                &&& #[trigger] call.possible()
                &&& call.sink == sink
                &&& call.block_ptr == block_ptr
                &&& call.changes == changes
                &&& sink.counters().adds(call.tally())
            },
{
    let (job, outcome) = choose|job: WriteJob, outcome: Offer|
        changes@.len() > 0 ==> {
            &&& #[trigger] sink.handed_over(block_ptr, changes, job, outcome)
            &&& sink.counters().adds(offer_tally(outcome))
        };
    let call = Submission { sink, block_ptr, changes, job, outcome };
    assert(call.possible());
}

/// The jobs that a series of submissions puts in the queue, one behind the other.
pub open spec fn queued_jobs(calls: Seq<Submission>) -> Seq<WriteJob>
    decreases calls.len(),
{
    if calls.len() == 0 {
        Seq::empty()
    } else {
        queued_jobs(calls.drop_last()) + calls.last().queued()
    }
}

/// The number of changes that jobs carry.
pub open spec fn job_rows(jobs: Seq<WriteJob>) -> nat
    decreases jobs.len(),
{
    if jobs.len() == 0 {
        0
    } else {
        job_rows(jobs.drop_last()) + jobs.last().changes@.len()
    }
}

/// The rows that a series of submissions counts as dropped.
pub open spec fn submissions_dropped(calls: Seq<Submission>) -> nat
    decreases calls.len(),
{
    if calls.len() == 0 {
        0
    } else {
        submissions_dropped(calls.drop_last()) + calls.last().tally().rows_dropped as nat
    }
}

/// The number of changes that a series of submissions brings.
pub open spec fn submitted_rows(calls: Seq<Submission>) -> nat
    decreases calls.len(),
{
    if calls.len() == 0 {
        0
    } else {
        submitted_rows(calls.drop_last()) + calls.last().changes@.len()
    }
}

/// The changes of one submission are all queued, in one job, or all counted as dropped.
pub proof fn batch_is_queued_or_dropped_whole(call: Submission)
    requires
        call.possible(),
    ensures
        call.tally().rows_sent == 0,
        call.tally().flush_errors == 0,
        call.changes@.len() == 0 ==> call.queued().len() == 0 && call.tally().rows_dropped == 0,
        call.changes@.len() > 0 ==> {
            ||| call.queued().len() == 1 && call.queued()[0].changes == call.changes
                && call.tally().rows_dropped == 0
            ||| call.queued().len() == 0 && call.tally().rows_dropped == call.changes@.len()
        },
{
}

/// Whatever sinks the changes of a series of submissions go through, every change is queued or
/// counted as dropped, once.
pub proof fn every_change_is_queued_or_dropped(calls: Seq<Submission>)
    requires
        forall|i: int| 0 <= i < calls.len() ==> (#[trigger] calls[i]).possible(),
    ensures
        job_rows(queued_jobs(calls)) + submissions_dropped(calls) == submitted_rows(calls),
    decreases calls.len(),
{
    if calls.len() > 0 {
        let call = calls.last();
        let earlier = queued_jobs(calls.drop_last());
        every_change_is_queued_or_dropped(calls.drop_last());
        assert(calls[calls.len() - 1].possible());
        if call.queued().len() == 0 {
            assert(earlier + call.queued() =~= earlier);
        } else {
            assert((earlier + call.queued()).drop_last() =~= earlier);
        }
    }
}

/// The queued jobs of a series of submissions are in the order of the calls: the job of each call
/// comes right behind those of the earlier calls.
pub proof fn queued_jobs_are_in_call_order(calls: Seq<Submission>, n: int)
    requires
        0 <= n < calls.len(),
        calls[n].queued().len() > 0,
    ensures
        queued_jobs(calls.take(n)).len() < queued_jobs(calls).len(),
        queued_jobs(calls)[queued_jobs(calls.take(n)).len() as int] == calls[n].job,
    decreases calls.len(),
{
    if n == calls.len() - 1 {
        assert(calls.take(n) =~= calls.drop_last());
    } else {
        assert(calls.drop_last().take(n) =~= calls.take(n));
        queued_jobs_are_in_call_order(calls.drop_last(), n);
    }
}

/// Changes that are submitted through a sink are offered to its queue as one job, with the namespace
/// that the sink was asked for, the number of the block and the changes themselves. The writer's
/// counter of dropped rows grows by all of the changes if the queue hands the job back and by none
/// if it takes it, and the other two grow by nothing.
pub proof fn submitted_changes_are_offered_and_counted(
    config: QuestDbConfig,
    registry: QuestDbSink,
    task: WriterTask,
    deployment: DeploymentHash,
    namespace: &str,
    sink: Arc<QuestDbDeploymentSink>,
    block_ptr: BlockPtr,
    changes: Vec<EntityChange>,
)
    requires
        call_ensures(QuestDbSink::start, (Some(&config),), Some((registry, task))),
        call_ensures(QuestDbSink::for_deployment, (&registry, &deployment, namespace), Some(sink)),
        call_ensures(QuestDbDeploymentSink::submit, (&*sink, &block_ptr, changes), ()),
        changes@.len() > 0,
    ensures
        sink.channel() == receiver_channel(task.receiver),
        exists|before: u64| #[trigger]
            call_ensures(
                AtomicU64::fetch_add,
                (&task.counters.rows_sent, 0u64, Ordering::Relaxed),
                before,
            ),
        exists|before: u64| #[trigger]
            call_ensures(
                AtomicU64::fetch_add,
                (&task.counters.flush_errors, 0u64, Ordering::Relaxed),
                before,
            ),
        exists|job: WriteJob, outcome: Offer, lost: u64, before: u64|
            {
                &&& #[trigger] sink.offered(job, outcome)
                &&& job.namespace@ == namespace@
                &&& job.block_number == block_ptr.number
                &&& job.changes == changes
                &&& outcome matches Offer::Full(returned) ==> returned == job
                &&& outcome matches Offer::Disconnected(returned) ==> returned == job
                &&& outcome is Queued ==> lost == 0
                &&& !(outcome is Queued) ==> lost == changes@.len()
                &&& #[trigger] call_ensures(
                    AtomicU64::fetch_add,
                    (&task.counters.rows_dropped, lost, Ordering::Relaxed),
                    before,
                )
            },
{
    let started = Some((registry, task));
    let made = Some(sink);
    assert(started is Some && made is Some);
    let (job, outcome) = choose|job: WriteJob, outcome: Offer|
        {
            &&& #[trigger] sink.handed_over(block_ptr, changes, job, outcome)
            &&& sink.counters().adds(offer_tally(outcome))
        };
    assert(sink.offered(job, outcome));
    let lost = offer_tally(outcome).rows_dropped;
    let before = choose|before: u64| #[trigger]
        call_ensures(
            AtomicU64::fetch_add,
            (&sink.counters().rows_dropped, lost, Ordering::Relaxed),
            before,
        );
    assert(call_ensures(
        AtomicU64::fetch_add,
        (&task.counters.rows_dropped, lost, Ordering::Relaxed),
        before,
    ));
}

/// A submission without changes adds nothing to the writer's counters.
pub proof fn empty_submission_counts_nothing(
    config: QuestDbConfig,
    registry: QuestDbSink,
    task: WriterTask,
    deployment: DeploymentHash,
    namespace: &str,
    sink: Arc<QuestDbDeploymentSink>,
    block_ptr: BlockPtr,
    changes: Vec<EntityChange>,
)
    requires
        call_ensures(QuestDbSink::start, (Some(&config),), Some((registry, task))),
        call_ensures(QuestDbSink::for_deployment, (&registry, &deployment, namespace), Some(sink)),
        call_ensures(QuestDbDeploymentSink::submit, (&*sink, &block_ptr, changes), ()),
        changes@.len() == 0,
    ensures
        exists|before: u64| #[trigger]
            call_ensures(
                AtomicU64::fetch_add,
                (&task.counters.rows_sent, 0u64, Ordering::Relaxed),
                before,
            ),
        exists|before: u64| #[trigger]
            call_ensures(
                AtomicU64::fetch_add,
                (&task.counters.rows_dropped, 0u64, Ordering::Relaxed),
                before,
            ),
        exists|before: u64| #[trigger]
            call_ensures(
                AtomicU64::fetch_add,
                (&task.counters.flush_errors, 0u64, Ordering::Relaxed),
                before,
            ),
{
    let started = Some((registry, task));
    let made = Some(sink);
    assert(started is Some && made is Some);
}

/// A counted submission returns what is lost: all of the changes, if the job that carries them comes
/// back, else nothing; and no other number.
pub proof fn counted_submission_returns_the_loss(
    sink: QuestDbDeploymentSink,
    block_ptr: BlockPtr,
    changes: Vec<EntityChange>,
    tally: Tally,
)
    requires
        ({
            ||| call_ensures(
                QuestDbDeploymentSink::submit_counted,
                (&sink, &block_ptr, changes),
                tally,
            )
            ||| call_ensures(QuestDbDeploymentSink::offer, (&sink, &block_ptr, changes), tally)
        }),
    ensures
        tally.rows_sent == 0,
        tally.flush_errors == 0,
        changes@.len() == 0 ==> tally.rows_dropped == 0,
        changes@.len() > 0 ==> exists|job: WriteJob, outcome: Offer|
            {
                &&& #[trigger] sink.offered(job, outcome)
                &&& job.namespace@ == sink.namespace()
                &&& job.block_number == block_ptr.number
                &&& job.changes == changes
                &&& outcome is Queued ==> tally.rows_dropped == 0
                &&& !(outcome is Queued) ==> tally.rows_dropped == changes@.len()
            },
{
    if changes@.len() > 0 {
        let (job, outcome) = choose|job: WriteJob, outcome: Offer|
            {
                &&& #[trigger] sink.handed_over(block_ptr, changes, job, outcome)
                &&& tally == offer_tally(outcome)
            };
        assert(sink.offered(job, outcome));
    }
}

/// A counted submission adds the numbers that it returns to the counters of the same names.
pub proof fn counted_submission_adds_what_it_returns(
    sink: QuestDbDeploymentSink,
    block_ptr: BlockPtr,
    changes: Vec<EntityChange>,
    tally: Tally,
)
    requires
        call_ensures(QuestDbDeploymentSink::submit_counted, (&sink, &block_ptr, changes), tally),
    ensures
        exists|before: u64| #[trigger]
            call_ensures(
                AtomicU64::fetch_add,
                (&sink.counters().rows_sent, tally.rows_sent, Ordering::Relaxed),
                before,
            ),
        exists|before: u64| #[trigger]
            call_ensures(
                AtomicU64::fetch_add,
                (&sink.counters().rows_dropped, tally.rows_dropped, Ordering::Relaxed),
                before,
            ),
        exists|before: u64| #[trigger]
            call_ensures(
                AtomicU64::fetch_add,
                (&sink.counters().flush_errors, tally.flush_errors, Ordering::Relaxed),
                before,
            ),
{
}

/// The job of a batch has the sink's namespace, the number of the block and the changes themselves,
/// and there is none without changes.
pub proof fn job_holds_the_batch(
    sink: QuestDbDeploymentSink,
    block_ptr: BlockPtr,
    changes: Vec<EntityChange>,
    job: Option<WriteJob>,
)
    requires
        call_ensures(QuestDbDeploymentSink::make_job, (&sink, &block_ptr, changes), job),
    ensures
        job is Some <==> changes@.len() > 0,
        job matches Some(made) ==> made.namespace@ == sink.namespace() && made.block_number
            == block_ptr.number && made.changes == changes,
{
}

} // verus!
