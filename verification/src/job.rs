//! Jobs for the background writer.

use crate::sink::EntityChange;
use vstd::prelude::*;

verus! {

/// A unit of work handed to the background writer.
#[derive(Clone, Debug)]
pub struct WriteJob {
    pub namespace: String,
    pub block_number: i32,
    pub changes: Vec<EntityChange>,
}

impl WriteJob {
    /// Every change's block time is an `i64` in nanoseconds.
    pub open spec fn times_in_range(&self) -> bool {
        forall|i: int| 0 <= i < self.changes@.len() ==> (#[trigger] self.changes@[i]).block_time.in_range()
    }

    /// Tells whether every change's block time is an `i64` in nanoseconds.
    pub fn times_fit(&self) -> (fit: bool)
        ensures
            fit == self.times_in_range(),
    {
        for i in 0..self.changes.len()
            invariant
                forall|j: int| 0 <= j < i ==> (#[trigger] self.changes@[j]).block_time.in_range(),
        {
            if !self.changes[i].block_time.fits_nanos() {
                return false;
            }
        }
        true
    }
}

/// The times of a job fit if the nanoseconds of every change's block time are an `i64`.
pub proof fn job_fits_if_every_change_does(job: WriteJob, fit: bool)
    requires
        call_ensures(WriteJob::times_fit, (&job,), fit),
    ensures
        fit <==> forall|i: int|
            0 <= i < job.changes@.len() ==> i64::MIN <= (#[trigger] job.changes@[i]).block_time.seconds
                * 1_000_000_000 <= i64::MAX,
{
    assert(fit <== forall|i: int|
        0 <= i < job.changes@.len() ==> i64::MIN <= (#[trigger] job.changes@[i]).block_time.seconds
            * 1_000_000_000 <= i64::MAX);
    if fit {
        assert forall|i: int| 0 <= i < job.changes@.len() implies i64::MIN <= (
        #[trigger] job.changes@[i]).block_time.seconds * 1_000_000_000 <= i64::MAX by {
            assert(job.changes@[i].block_time.in_range());
        }
    }
}

} // verus!
