//! The decisions of the background writer.

use questdb_sink::{Phase, Tally, WriterAction, WriterEvent, WriterState};

fn step(state: &mut WriterState, event: WriterEvent) -> (WriterAction, Tally) {
    assert!(state.can_step(event));
    state.step(event)
}

#[test]
fn first_job_connects_then_writes() {
    let mut state = WriterState::new();
    assert_eq!(
        step(&mut state, WriterEvent::Job { rows: 3 }),
        (WriterAction::Connect, Tally::none())
    );
    assert_eq!(step(&mut state, WriterEvent::Connected), (WriterAction::Write, Tally::none()));
    assert_eq!(
        step(&mut state, WriterEvent::Written { rows: 3 }),
        (WriterAction::Receive, Tally::sent(3))
    );
    assert_eq!(
        step(&mut state, WriterEvent::Job { rows: 2 }),
        (WriterAction::Write, Tally::none())
    );
}

#[test]
fn backoff_doubles_from_one_to_thirty_seconds() {
    let mut state = WriterState::new();
    for seconds in [1, 2, 4, 8, 16, 30, 30, 30] {
        step(&mut state, WriterEvent::Job { rows: 5 });
        assert_eq!(
            step(&mut state, WriterEvent::ConnectFailed),
            (WriterAction::Sleep { seconds }, Tally::dropped(5))
        );
    }
}

#[test]
fn connecting_resets_the_backoff() {
    let mut state = WriterState::new();
    for _ in 0..4 {
        step(&mut state, WriterEvent::Job { rows: 1 });
        step(&mut state, WriterEvent::ConnectFailed);
    }
    assert_eq!(state.backoff, 16);
    step(&mut state, WriterEvent::Job { rows: 1 });
    step(&mut state, WriterEvent::Connected);
    assert_eq!(state.backoff, 1);
}

#[test]
fn failed_write_reconnects_for_the_next_job() {
    let mut state = WriterState::new();
    step(&mut state, WriterEvent::Job { rows: 4 });
    step(&mut state, WriterEvent::Connected);
    assert_eq!(
        step(&mut state, WriterEvent::WriteFailed),
        (WriterAction::Disconnect, Tally::failed(4))
    );
    assert!(!state.connected);
    assert_eq!(
        step(&mut state, WriterEvent::Job { rows: 1 }),
        (WriterAction::Connect, Tally::none())
    );
}

#[test]
fn every_row_is_counted_once() {
    let events = [
        WriterEvent::Job { rows: 3 },
        WriterEvent::ConnectFailed,
        WriterEvent::Job { rows: 5 },
        WriterEvent::Connected,
        WriterEvent::Written { rows: 5 },
        WriterEvent::Job { rows: 7 },
        WriterEvent::WriteFailed,
        WriterEvent::Job { rows: 11 },
        WriterEvent::Connected,
        WriterEvent::Written { rows: 11 },
    ];
    let mut state = WriterState::new();
    let mut sent = 0;
    let mut dropped = 0;
    let mut failures = 0;
    for event in events {
        let (_, tally) = step(&mut state, event);
        sent += tally.rows_sent;
        dropped += tally.rows_dropped;
        failures += tally.flush_errors;
    }
    assert_eq!(sent, 16);
    assert_eq!(dropped, 10);
    assert_eq!(failures, 1);
    assert_eq!(state.phase, Phase::Receiving);
}

#[test]
fn events_out_of_turn_are_not_expected() {
    let mut state = WriterState::new();
    assert!(!state.can_step(WriterEvent::Connected));
    assert!(!state.can_step(WriterEvent::ConnectFailed));
    assert!(!state.can_step(WriterEvent::WriteFailed));
    assert!(!state.can_step(WriterEvent::Written { rows: 0 }));
    step(&mut state, WriterEvent::Job { rows: 2 });
    assert!(!state.can_step(WriterEvent::Job { rows: 2 }));
    assert!(!state.can_step(WriterEvent::Written { rows: 2 }));
    step(&mut state, WriterEvent::Connected);
    assert!(!state.can_step(WriterEvent::Written { rows: 1 }));
    assert!(state.can_step(WriterEvent::Written { rows: 2 }));
}

#[test]
fn every_failed_write_is_counted() {
    let mut state = WriterState::new();
    let mut failures = 0;
    for event in [
        WriterEvent::Job { rows: 2 },
        WriterEvent::ConnectFailed,
        WriterEvent::Job { rows: 2 },
        WriterEvent::Connected,
        WriterEvent::WriteFailed,
        WriterEvent::Job { rows: 3 },
        WriterEvent::Connected,
        WriterEvent::Written { rows: 3 },
        WriterEvent::Job { rows: 1 },
        WriterEvent::WriteFailed,
    ] {
        failures += step(&mut state, event).1.flush_errors;
    }
    assert_eq!(failures, 2);
}
