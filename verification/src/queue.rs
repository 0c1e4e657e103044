//! The bounded queue between submitters and the background writer.

use crate::counters::Tally;
use crate::job::WriteJob;
use std::sync::mpsc::{sync_channel, Receiver, SyncSender, TrySendError};
use vstd::prelude::*;

verus! {

/// The submitting end of a channel.
#[verifier::external_type_specification]
#[verifier::external_body]
#[verifier::reject_recursive_types(T)]
pub struct ExSyncSender<T>(SyncSender<T>);

/// The receiving end of a channel.
#[verifier::external_type_specification]
#[verifier::external_body]
#[verifier::reject_recursive_types(T)]
pub struct ExReceiver<T>(Receiver<T>);

/// The number of jobs that the channel of a sender holds at most.
pub uninterp spec fn queue_bound(sender: SyncSender<WriteJob>) -> nat;

/// The channel that a sender submits to.
pub uninterp spec fn sender_channel(sender: SyncSender<WriteJob>) -> int;

/// The channel that a receiver takes from.
pub uninterp spec fn receiver_channel(receiver: Receiver<WriteJob>) -> int;

/// An upper bound of the bytes that one place in the queue takes.
pub const SLOT_BYTES: usize = 64;

/// Whether the places of a queue fit in memory that one allocation can have.
pub open spec fn bound_fits(bound: nat) -> bool {
    bound * SLOT_BYTES <= isize::MAX
}

/// Calls `std::sync::mpsc::sync_channel`, which makes a channel whose buffer has `bound` places and
/// returns its two ends. The places must fit in one allocation.
#[verifier::external_body]
pub(crate) fn bounded_queue(bound: usize) -> (ends: (SyncSender<WriteJob>, Receiver<WriteJob>))
    requires
        bound_fits(bound as nat),
    ensures
        queue_bound(ends.0) == bound,
        sender_channel(ends.0) == receiver_channel(ends.1),
{
    sync_channel::<WriteJob>(bound)
}

/// Calls `SyncSender::clone`, which makes another sender to the same channel, so with the same bound.
#[verifier::external_body]
pub(crate) fn share_sender(sender: &SyncSender<WriteJob>) -> (copy: SyncSender<WriteJob>)
    ensures
        queue_bound(copy) == queue_bound(*sender),
        sender_channel(copy) == sender_channel(*sender),
{
    sender.clone()
}

/// What became of a job that was offered to the queue.
pub enum Offer {
    /// The queue took the job.
    Queued,
    /// The queue was full; the job is handed back.
    Full(WriteJob),
    /// The writer is gone; the job is handed back.
    Disconnected(WriteJob),
}

/// Whether an offer is one of the job: a job that is handed back is the one that was offered.
pub open spec fn answers(offer: Offer, job: WriteJob) -> bool {
    match offer {
        Offer::Queued => true,
        Offer::Full(returned) => returned == job,
        Offer::Disconnected(returned) => returned == job,
    }
}

/// Calls `SyncSender::try_send`, which does not block: it puts the job in the channel, or hands the
/// job back if the channel is full or has no receiver. Which of these happens rests on the other
/// threads.
#[verifier::external_body]
pub(crate) fn offer_job(sender: &SyncSender<WriteJob>, job: WriteJob) -> (offer: Offer)
    ensures
        answers(offer, job),
{
    match sender.try_send(job) {
        Ok(()) => Offer::Queued,
        Err(TrySendError::Full(returned)) => Offer::Full(returned),
        Err(TrySendError::Disconnected(returned)) => Offer::Disconnected(returned),
    }
}

/// How many rows are lost with an offer: all of the job's if it was handed back.
pub open spec fn lost_rows(offer: Offer) -> nat {
    match offer {
        Offer::Queued => 0,
        Offer::Full(job) => job.changes@.len(),
        Offer::Disconnected(job) => job.changes@.len(),
    }
}

/// What an offer adds to the counters: the rows that are lost with it.
pub open spec fn offer_tally(offer: Offer) -> Tally {
    Tally { rows_sent: 0, rows_dropped: lost_rows(offer) as u64, flush_errors: 0 }
}

/// The number of rows that are lost with an offer.
pub fn dropped_rows(offer: &Offer) -> (rows: u64)
    ensures
        rows == lost_rows(*offer),
{
    match offer {
        Offer::Queued => 0,
        Offer::Full(job) => job.changes.len() as u64,
        Offer::Disconnected(job) => job.changes.len() as u64,
    }
}

/// A job that is handed back loses all of its rows, one that is taken none.
pub proof fn lost_rows_are_those_handed_back(offer: Offer, rows: u64)
    requires
        call_ensures(dropped_rows, (&offer,), rows),
    ensures
        offer is Queued ==> rows == 0,
        offer matches Offer::Full(job) ==> rows == job.changes@.len(),
        offer matches Offer::Disconnected(job) ==> rows == job.changes@.len(),
{
}

} // verus!
