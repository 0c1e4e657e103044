//! The decisions of the background writer.
//!
//! The writer receives jobs, connects to the database when it has no connection, and writes each
//! job. It gives a job up when it cannot connect or when writing fails, and it waits longer and
//! longer between attempts to connect.

use crate::counters::Tally;
use vstd::arithmetic::power2::{lemma_pow2_unfold, pow2};
use vstd::prelude::*;

verus! {

/// The seconds that the writer waits after the first failure to connect.
pub const MIN_BACKOFF_SECONDS: u64 = 1;

/// The seconds that the writer waits at most after a failure to connect.
pub const MAX_BACKOFF_SECONDS: u64 = 30;

/// What the writer is about.
#[derive(Clone, Copy, Debug, PartialEq, Eq, Structural)]
pub enum Phase {
    /// Waiting for a job.
    Receiving,
    /// Connecting, with a job of so many rows in hand.
    Connecting { rows: u64 },
    /// Writing a job of so many rows.
    Writing { rows: u64 },
}

/// What happened to the writer.
#[derive(Clone, Copy, Debug, PartialEq, Eq, Structural)]
pub enum WriterEvent {
    /// A job with so many rows was received.
    Job { rows: u64 },
    /// The connection was established.
    Connected,
    /// The connection could not be established.
    ConnectFailed,
    /// All rows of the job, this many, were written and flushed.
    Written { rows: u64 },
    /// The job could not be written or flushed.
    WriteFailed,
}

/// What the writer does next.
#[derive(Clone, Copy, Debug, PartialEq, Eq, Structural)]
pub enum WriterAction {
    /// Wait for the next job.
    Receive,
    /// Connect to the database.
    Connect,
    /// Write the job in hand.
    Write,
    /// Give the job in hand up and sleep, then wait for the next job.
    Sleep { seconds: u64 },
    /// Give the job in hand and the connection up, then wait for the next job.
    Disconnect,
}

/// The state of the writer.
#[derive(Clone, Copy, Debug, PartialEq, Eq, Structural)]
pub struct WriterState {
    pub phase: Phase,
    /// Whether there is a live connection.
    pub connected: bool,
    /// The seconds to wait after the next failure to connect.
    pub backoff: u64,
}

/// Twice as long a wait, up to the longest.
pub open spec fn doubled(backoff: u64) -> u64 {
    if 2 * backoff <= MAX_BACKOFF_SECONDS {
        (2 * backoff) as u64
    } else {
        MAX_BACKOFF_SECONDS
    }
}

impl WriterState {
    /// The writer connects only without a connection and writes only with one, and waits between
    /// one second and the longest wait.
    pub open spec fn well_formed(self) -> bool {
        &&& MIN_BACKOFF_SECONDS <= self.backoff <= MAX_BACKOFF_SECONDS
        &&& self.phase is Connecting ==> !self.connected
        &&& self.phase is Writing ==> self.connected
    }

    /// The rows of the job in hand.
    pub open spec fn rows_in_hand(self) -> nat {
        match self.phase {
            Phase::Receiving => 0,
            Phase::Connecting { rows } => rows as nat,
            Phase::Writing { rows } => rows as nat,
        }
    }

    /// Whether the event can happen next. Writing a job writes all of its rows.
    pub open spec fn expects(self, event: WriterEvent) -> bool {
        match event {
            WriterEvent::Job { rows } => self.phase is Receiving,
            WriterEvent::Connected => self.phase is Connecting,
            WriterEvent::ConnectFailed => self.phase is Connecting,
            WriterEvent::Written { rows } => self.phase == (Phase::Writing { rows }),
            WriterEvent::WriteFailed => self.phase is Writing,
        }
    }

    /// The state after an event.
    pub open spec fn after(self, event: WriterEvent) -> WriterState {
        match event {
            WriterEvent::Job { rows } => WriterState {
                phase: if self.connected {
                    Phase::Writing { rows }
                } else {
                    Phase::Connecting { rows }
                },
                ..self
            },
            WriterEvent::Connected => WriterState {
                phase: Phase::Writing { rows: self.rows_in_hand() as u64 },
                connected: true,
                backoff: MIN_BACKOFF_SECONDS,
            },
            WriterEvent::ConnectFailed => WriterState {
                phase: Phase::Receiving,
                connected: false,
                backoff: doubled(self.backoff),
            },
            WriterEvent::Written { rows } => WriterState { phase: Phase::Receiving, ..self },
            WriterEvent::WriteFailed => WriterState {
                phase: Phase::Receiving,
                connected: false,
                ..self
            },
        }
    }

    /// What the writer does after an event.
    pub open spec fn action(self, event: WriterEvent) -> WriterAction {
        match event {
            WriterEvent::Job { rows } => if self.connected {
                WriterAction::Write
            } else {
                WriterAction::Connect
            },
            WriterEvent::Connected => WriterAction::Write,
            WriterEvent::ConnectFailed => WriterAction::Sleep { seconds: self.backoff },
            WriterEvent::Written { rows } => WriterAction::Receive,
            WriterEvent::WriteFailed => WriterAction::Disconnect,
        }
    }

    /// What an event adds to the counters.
    pub open spec fn tally(self, event: WriterEvent) -> Tally {
        let rows = self.rows_in_hand() as u64;
        match event {
            WriterEvent::Job { rows } => Tally { rows_sent: 0, rows_dropped: 0, flush_errors: 0 },
            WriterEvent::Connected => Tally { rows_sent: 0, rows_dropped: 0, flush_errors: 0 },
            WriterEvent::ConnectFailed => Tally { rows_sent: 0, rows_dropped: rows, flush_errors: 0 },
            WriterEvent::Written { rows } => Tally { rows_sent: rows, rows_dropped: 0, flush_errors: 0 },
            WriterEvent::WriteFailed => Tally { rows_sent: 0, rows_dropped: rows, flush_errors: 1 },
        }
    }

    /// A writer that has no connection yet and waits for its first job.
    pub fn new() -> (state: WriterState)
        ensures
            state.well_formed(),
            state == (WriterState {
                phase: Phase::Receiving,
                connected: false,
                backoff: MIN_BACKOFF_SECONDS,
            }),
    {
        WriterState { phase: Phase::Receiving, connected: false, backoff: MIN_BACKOFF_SECONDS }
    }

    /// Tells whether the event can happen next.
    pub fn can_step(&self, event: WriterEvent) -> (expected: bool)
        ensures
            expected == self.expects(event),
    {
        match (self.phase, event) {
            (Phase::Receiving, WriterEvent::Job { .. }) => true,
            (Phase::Connecting { .. }, WriterEvent::Connected) => true,
            (Phase::Connecting { .. }, WriterEvent::ConnectFailed) => true,
            (Phase::Writing { rows }, WriterEvent::Written { rows: written }) => rows == written,
            (Phase::Writing { .. }, WriterEvent::WriteFailed) => true,
            _ => false,
        }
    }

    /// Takes an event in and returns what the writer does next and what the event adds to the
    /// counters.
    pub fn step(&mut self, event: WriterEvent) -> (next: (WriterAction, Tally))
        requires
            old(self).well_formed(),
            old(self).expects(event),
        ensures
            final(self).well_formed(),
            *final(self) == old(self).after(event),
            next.0 == old(self).action(event),
            next.1 == old(self).tally(event),
    {
        let rows: u64 = match self.phase {
            Phase::Receiving => 0,
            Phase::Connecting { rows } => rows,
            Phase::Writing { rows } => rows,
        };
        match event {
            WriterEvent::Job { rows } => {
                // Make sure there is a live connection.
                if self.connected {
                    self.phase = Phase::Writing { rows };
                    (WriterAction::Write, Tally::none())
                } else {
                    self.phase = Phase::Connecting { rows };
                    (WriterAction::Connect, Tally::none())
                }
            },
            WriterEvent::Connected => {
                self.phase = Phase::Writing { rows };
                self.connected = true;
                self.backoff = MIN_BACKOFF_SECONDS;
                (WriterAction::Write, Tally::none())
            },
            WriterEvent::ConnectFailed => {
                let seconds: u64 = self.backoff;
                self.phase = Phase::Receiving;
                self.backoff = if seconds * 2 <= MAX_BACKOFF_SECONDS {
                    seconds * 2
                } else {
                    MAX_BACKOFF_SECONDS
                };
                (WriterAction::Sleep { seconds }, Tally::dropped(rows))
            },
            WriterEvent::Written { rows: written } => {
                self.phase = Phase::Receiving;
                (WriterAction::Receive, Tally::sent(written))
            },
            WriterEvent::WriteFailed => {
                // Drop the connection so that the next job reconnects.
                self.phase = Phase::Receiving;
                self.connected = false;
                (WriterAction::Disconnect, Tally::failed(rows))
            },
        }
    }
}

/// Whether the events can happen one after the other.
pub open spec fn possible(state: WriterState, events: Seq<WriterEvent>) -> bool
    decreases events.len(),
{
    events.len() == 0 || state.expects(events[0]) && possible(
        state.after(events[0]),
        events.skip(1),
    )
}

/// The state after a series of events.
pub open spec fn after_all(state: WriterState, events: Seq<WriterEvent>) -> WriterState
    decreases events.len(),
{
    if events.len() == 0 {
        state
    } else {
        after_all(state.after(events[0]), events.skip(1))
    }
}

/// The rows that a series of events counts as sent.
pub open spec fn rows_sent(state: WriterState, events: Seq<WriterEvent>) -> nat
    decreases events.len(),
{
    if events.len() == 0 {
        0
    } else {
        state.tally(events[0]).rows_sent as nat + rows_sent(state.after(events[0]), events.skip(1))
    }
}

/// The rows that a series of events counts as dropped.
pub open spec fn rows_dropped(state: WriterState, events: Seq<WriterEvent>) -> nat
    decreases events.len(),
{
    if events.len() == 0 {
        0
    } else {
        state.tally(events[0]).rows_dropped as nat + rows_dropped(
            state.after(events[0]),
            events.skip(1),
        )
    }
}

/// The rows of the jobs that a series of events brings.
pub open spec fn rows_received(events: Seq<WriterEvent>) -> nat
    decreases events.len(),
{
    if events.len() == 0 {
        0
    } else {
        let first = match events[0] {
            WriterEvent::Job { rows } => rows as nat,
            _ => 0,
        };
        first + rows_received(events.skip(1))
    }
}

/// Every row that the writer receives is counted once, as sent or as dropped, except those of the
/// job in hand.
pub proof fn every_row_is_sent_or_dropped(state: WriterState, events: Seq<WriterEvent>)
    requires
        state.well_formed(),
        possible(state, events),
    ensures
        rows_sent(state, events) + rows_dropped(state, events) + after_all(
            state,
            events,
        ).rows_in_hand() == state.rows_in_hand() + rows_received(events),
    decreases events.len(),
{
    if events.len() > 0 {
        every_row_is_sent_or_dropped(state.after(events[0]), events.skip(1));
    }
}

/// The failures to write that a series of events counts.
pub open spec fn flush_errors(state: WriterState, events: Seq<WriterEvent>) -> nat
    decreases events.len(),
{
    if events.len() == 0 {
        0
    } else {
        state.tally(events[0]).flush_errors as nat + flush_errors(
            state.after(events[0]),
            events.skip(1),
        )
    }
}

/// Every failure to write is counted once, and nothing else counts as one.
pub proof fn every_failed_write_is_counted(state: WriterState, events: Seq<WriterEvent>)
    requires
        state.well_formed(),
        possible(state, events),
    ensures
        flush_errors(state, events) == events.filter(
            |event: WriterEvent| event is WriteFailed,
        ).len(),
    decreases events.len(),
{
    let failed = |event: WriterEvent| event is WriteFailed;
    if events.len() > 0 {
        let first = seq![events[0]];
        every_failed_write_is_counted(state.after(events[0]), events.skip(1));
        assert(events =~= first + events.skip(1));
        Seq::filter_distributes_over_add(first, events.skip(1), failed);
        assert(first.drop_last() =~= Seq::empty());
        reveal_with_fuel(Seq::filter, 2);
    } else {
        reveal(Seq::filter);
    }
}

/// Whatever happens, the writer connects only without a connection, writes only with one, and
/// waits between one second and the longest wait.
pub proof fn states_stay_well_formed(state: WriterState, events: Seq<WriterEvent>)
    requires
        state.well_formed(),
        possible(state, events),
    ensures
        after_all(state, events).well_formed(),
    decreases events.len(),
{
    if events.len() > 0 {
        states_stay_well_formed(state.after(events[0]), events.skip(1));
    }
}

/// The state of a writer without a connection after so many jobs for which connecting failed.
pub open spec fn after_outage(state: WriterState, jobs: Seq<u64>) -> WriterState
    decreases jobs.len(),
{
    if jobs.len() == 0 {
        state
    } else {
        after_outage(state, jobs.drop_last()).after(WriterEvent::Job { rows: jobs.last() }).after(
            WriterEvent::ConnectFailed,
        )
    }
}

/// While the database is away the wait doubles with every job, from one second up to the longest
/// wait.
pub proof fn backoff_doubles_up_to_the_longest_wait(state: WriterState, jobs: Seq<u64>)
    requires
        state.well_formed(),
        state.phase is Receiving,
        !state.connected,
        state.backoff == MIN_BACKOFF_SECONDS,
    ensures
        ({
            let now = after_outage(state, jobs);
            &&& now.phase is Receiving
            &&& !now.connected
            &&& now.backoff == if pow2(jobs.len()) <= MAX_BACKOFF_SECONDS {
                pow2(jobs.len())
            } else {
                MAX_BACKOFF_SECONDS as nat
            }
        }),
    decreases jobs.len(),
{
    if jobs.len() > 0 {
        backoff_doubles_up_to_the_longest_wait(state, jobs.drop_last());
        lemma_pow2_unfold(jobs.len());
    } else {
        vstd::arithmetic::power2::lemma2_to64();
    }
}

/// A connection, once made, ends the backoff, and the job in hand is written.
pub proof fn connecting_resets_the_backoff(state: WriterState)
    requires
        state.well_formed(),
        state.expects(WriterEvent::Connected),
    ensures
        state.after(WriterEvent::Connected).backoff == MIN_BACKOFF_SECONDS,
        state.after(WriterEvent::Connected).rows_in_hand() == state.rows_in_hand(),
        state.action(WriterEvent::Connected) is Write,
{
}

/// After a failure to write, the next job first connects again.
pub proof fn failed_write_reconnects(state: WriterState, rows: u64)
    requires
        state.well_formed(),
        state.expects(WriterEvent::WriteFailed),
    ensures
        ({
            let next = state.after(WriterEvent::WriteFailed);
            &&& next.expects(WriterEvent::Job { rows })
            &&& next.action(WriterEvent::Job { rows }) is Connect
        }),
{
}

} // verus!
