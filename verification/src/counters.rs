//! Counters for observability.

use std::sync::atomic::{AtomicU64, Ordering};
use vstd::prelude::*;

verus! {

/// What one step of the export adds to the counters.
#[derive(Clone, Copy, Debug, PartialEq, Eq, Structural)]
pub struct Tally {
    pub rows_sent: u64,
    pub rows_dropped: u64,
    pub flush_errors: u64,
}

impl Tally {
    /// Nothing to add.
    pub fn none() -> (tally: Tally)
        ensures
            tally == (Tally { rows_sent: 0, rows_dropped: 0, flush_errors: 0 }),
    {
        Tally { rows_sent: 0, rows_dropped: 0, flush_errors: 0 }
    }

    /// Rows that reached the database.
    pub fn sent(rows: u64) -> (tally: Tally)
        ensures
            tally == (Tally { rows_sent: rows, rows_dropped: 0, flush_errors: 0 }),
    {
        Tally { rows_sent: rows, rows_dropped: 0, flush_errors: 0 }
    }

    /// Rows that were given up before they were written.
    pub fn dropped(rows: u64) -> (tally: Tally)
        ensures
            tally == (Tally { rows_sent: 0, rows_dropped: rows, flush_errors: 0 }),
    {
        Tally { rows_sent: 0, rows_dropped: rows, flush_errors: 0 }
    }

    /// Rows that were given up because writing them failed.
    pub fn failed(rows: u64) -> (tally: Tally)
        ensures
            tally == (Tally { rows_sent: 0, rows_dropped: rows, flush_errors: 1 }),
    {
        Tally { rows_sent: 0, rows_dropped: rows, flush_errors: 1 }
    }
}

/// Whether a counter is a result that `AtomicU64::new` can have for the value. Only a call with that
/// value shows it.
pub open spec fn made_with(counter: AtomicU64, value: u64) -> bool {
    call_ensures(AtomicU64::new, (value,), counter)
}

/// Whether `AtomicU64::fetch_add` can have returned for the counter and the amount. Only a call with
/// that amount on that counter shows it.
pub open spec fn added(counter: AtomicU64, amount: u64) -> bool {
    exists|before: u64| #[trigger]
        call_ensures(AtomicU64::fetch_add, (&counter, amount, Ordering::Relaxed), before)
}

/// Shared counters. They are updated through shared references, by several threads at a time, so
/// contracts speak of the values that they are made with and of what is added to them, and not of
/// what they hold at some later time.
#[derive(Debug)]
pub struct Counters {
    pub rows_sent: AtomicU64,
    pub rows_dropped: AtomicU64,
    pub flush_errors: AtomicU64,
}

impl Counters {
    /// Whether the counters were made to stand at zero.
    pub open spec fn start_at_zero(&self) -> bool {
        &&& made_with(self.rows_sent, 0)
        &&& made_with(self.rows_dropped, 0)
        &&& made_with(self.flush_errors, 0)
    }

    /// Counters that stand at zero.
    pub fn new() -> (counters: Counters)
        ensures
            counters.start_at_zero(),
    {
        Counters {
            rows_sent: AtomicU64::new(0),
            rows_dropped: AtomicU64::new(0),
            flush_errors: AtomicU64::new(0),
        }
    }

    /// Whether each part of the tally was added to its counter.
    pub open spec fn adds(&self, tally: Tally) -> bool {
        &&& added(self.rows_sent, tally.rows_sent)
        &&& added(self.rows_dropped, tally.rows_dropped)
        &&& added(self.flush_errors, tally.flush_errors)
    }

    /// Adds a tally to the counters.
    pub fn record(&self, tally: &Tally)
        ensures
            self.adds(*tally),
    {
        self.rows_sent.fetch_add(tally.rows_sent, Ordering::Relaxed);
        self.rows_dropped.fetch_add(tally.rows_dropped, Ordering::Relaxed);
        self.flush_errors.fetch_add(tally.flush_errors, Ordering::Relaxed);
    }
}

/// New counters are three atomics that were each made with zero.
pub proof fn new_counters_stand_at_zero(counters: Counters)
    requires
        call_ensures(Counters::new, (), counters),
    ensures
        call_ensures(AtomicU64::new, (0u64,), counters.rows_sent),
        call_ensures(AtomicU64::new, (0u64,), counters.rows_dropped),
        call_ensures(AtomicU64::new, (0u64,), counters.flush_errors),
{
}

/// Recording a tally adds each of its numbers to the counter of the same name.
pub proof fn recording_adds_each_number_to_its_counter(counters: Counters, tally: Tally)
    requires
        call_ensures(Counters::record, (&counters, &tally), ()),
    ensures
        exists|before: u64| #[trigger]
            call_ensures(
                AtomicU64::fetch_add,
                (&counters.rows_sent, tally.rows_sent, Ordering::Relaxed),
                before,
            ),
        exists|before: u64| #[trigger]
            call_ensures(
                AtomicU64::fetch_add,
                (&counters.rows_dropped, tally.rows_dropped, Ordering::Relaxed),
                before,
            ),
        exists|before: u64| #[trigger]
            call_ensures(
                AtomicU64::fetch_add,
                (&counters.flush_errors, tally.flush_errors, Ordering::Relaxed),
                before,
            ),
{
}

} // verus!
