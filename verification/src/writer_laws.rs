//! What holds of the writer over a whole run.
//!
//! A run is a series of events, each of which the writer can take in its turn, with the states
//! around them: `states[0]` is that of a new writer, and `states[i + 1]` that after `events[i]`.

use crate::counters::Tally;
use crate::writer::{Phase, WriterAction, WriterEvent, WriterState};
use vstd::arithmetic::power2::{lemma2_to64, lemma_pow2_unfold, pow2};
use vstd::prelude::*;

verus! {

/// Whether the states are those around the events of a new writer's run.
spec fn is_run(states: Seq<WriterState>, events: Seq<WriterEvent>) -> bool {
    &&& states.len() == events.len() + 1
    &&& call_ensures(WriterState::new, (), states[0])
    &&& forall|i: int|
        0 <= i < events.len() ==> states[i].expects(#[trigger] events[i]) && states[i + 1]
            == states[i].after(events[i])
}

/// Whether a connection was made before the event at `i` and no write failed since.
spec fn connected_before(events: Seq<WriterEvent>, i: int) -> bool {
    exists|m: int|
        0 <= m < i && #[trigger] events[m] is Connected && forall|n: int|
            m < n < i ==> !(#[trigger] events[n] is WriteFailed)
}

proof fn lemma_connected_next(events: Seq<WriterEvent>, i: int)
    requires
        0 <= i < events.len(),
    ensures
        events[i] is Connected ==> connected_before(events, i + 1),
        events[i] is WriteFailed ==> !connected_before(events, i + 1),
        !(events[i] is Connected) && !(events[i] is WriteFailed) ==> connected_before(events, i + 1)
            == connected_before(events, i),
{
    if !(events[i] is WriteFailed) && connected_before(events, i) {
        let m = choose|m: int|
            0 <= m < i && #[trigger] events[m] is Connected && forall|n: int|
                m < n < i ==> !(#[trigger] events[n] is WriteFailed);
        assert(events[m] is Connected);
    }
    if connected_before(events, i + 1) && !(events[i] is Connected) {
        let m = choose|m: int|
            0 <= m < i + 1 && #[trigger] events[m] is Connected && forall|n: int|
                m < n < i + 1 ==> !(#[trigger] events[n] is WriteFailed);
        assert(m < i);
        assert(!(events[i] is WriteFailed));
    }
}

/// What the last events say of the state.
proof fn lemma_state(states: Seq<WriterState>, events: Seq<WriterEvent>, i: int)
    requires
        is_run(states, events),
        0 <= i <= events.len(),
    ensures
        states[i].well_formed(),
        states[i].connected == connected_before(events, i),
        i == 0 ==> states[i].phase is Receiving,
        i > 0 ==> match events[i - 1] {
            WriterEvent::Job { rows } => states[i].phase == if states[i].connected {
                Phase::Writing { rows }
            } else {
                Phase::Connecting { rows }
            },
            WriterEvent::Connected => {
                &&& i > 1
                &&& events[i - 2] is Job
                &&& states[i].phase == (Phase::Writing { rows: events[i - 2]->Job_rows })
            },
            _ => states[i].phase is Receiving,
        },
    decreases i,
{
    if i > 0 {
        lemma_state(states, events, i - 1);
        lemma_connected_next(events, i - 1);
        assert(states[i - 1].expects(events[i - 1]));
        assert(states[i] == states[i - 1].after(events[i - 1]));
    }
}

/// The writer takes a job when it is new or done with the last one; the outcome of connecting when it
/// has taken a job without a connection; and the outcome of writing when it has taken a job with a
/// connection, or connected for it. A job is written whole.
pub proof fn events_come_in_turn(
    states: Seq<WriterState>,
    events: Seq<WriterEvent>,
    i: int,
    event: WriterEvent,
    expected: bool,
)
    requires
        states.len() == events.len() + 1,
        call_ensures(WriterState::new, (), states[0]),
        forall|i: int|
            0 <= i < events.len() ==> states[i].expects(#[trigger] events[i]) && states[i + 1]
                == states[i].after(events[i]),
        0 <= i <= events.len(),
        call_ensures(WriterState::can_step, (&states[i], event), expected),
    ensures
        event is Job ==> (expected <==> i == 0 || events[i - 1] is ConnectFailed || events[i
            - 1] is Written || events[i - 1] is WriteFailed),
        event is Connected || event is ConnectFailed ==> (expected <==> i > 0 && events[i - 1] is Job
            && !states[i].connected),
        event is WriteFailed ==> (expected <==> i > 0 && (events[i - 1] is Connected || events[i
            - 1] is Job && states[i].connected)),
        event matches WriterEvent::Written { rows } ==> (expected <==> i > 0 && (events[i - 1]
            == (WriterEvent::Job { rows }) && states[i].connected || events[i - 1] is Connected
            && events[i - 2] == (WriterEvent::Job { rows }))),
        states[i].well_formed(),
{
    assert(is_run(states, events));
    lemma_state(states, events, i);
}

/// There is a connection if one was made and no write failed since, and only then.
pub proof fn connection_lasts_until_a_write_fails(
    states: Seq<WriterState>,
    events: Seq<WriterEvent>,
    i: int,
)
    requires
        states.len() == events.len() + 1,
        call_ensures(WriterState::new, (), states[0]),
        forall|i: int|
            0 <= i < events.len() ==> states[i].expects(#[trigger] events[i]) && states[i + 1]
                == states[i].after(events[i]),
        0 <= i <= events.len(),
    ensures
        states[i].connected <==> exists|m: int|
            0 <= m < i && #[trigger] events[m] is Connected && forall|n: int|
                m < n < i ==> !(#[trigger] events[n] is WriteFailed),
{
    assert(is_run(states, events));
    lemma_state(states, events, i);
}

/// A job is written if there is a connection or one is made for it; without one the writer connects
/// first. When it cannot connect it sleeps for the wait that it has come to, when it cannot write it
/// disconnects, and when it has written it goes on.
pub proof fn actions_follow_events(
    states: Seq<WriterState>,
    events: Seq<WriterEvent>,
    i: int,
)
    requires
        states.len() == events.len() + 1,
        call_ensures(WriterState::new, (), states[0]),
        forall|i: int|
            0 <= i < events.len() ==> states[i].expects(#[trigger] events[i]) && states[i + 1]
                == states[i].after(events[i]),
        0 <= i < events.len(),
    ensures
        events[i] is Job && states[i].connected ==> states[i].action(events[i]) is Write,
        events[i] is Job && !states[i].connected ==> states[i].action(events[i]) is Connect,
        events[i] is Connected ==> states[i].action(events[i]) is Write,
        events[i] is ConnectFailed ==> states[i].action(events[i]) == (WriterAction::Sleep {
            seconds: states[i].backoff,
        }),
        events[i] is Written ==> states[i].action(events[i]) is Receive,
        events[i] is WriteFailed ==> states[i].action(events[i]) is Disconnect,
{
    assert(is_run(states, events));
    lemma_state(states, events, i);
}

/// Each job is counted once, with all of its rows, when it is over: as sent if it was written, else
/// as dropped, and as a failure to write if that is what happened. Until then nothing is counted.
pub proof fn each_job_is_counted_whole(
    states: Seq<WriterState>,
    events: Seq<WriterEvent>,
    start: int,
    end: int,
)
    requires
        states.len() == events.len() + 1,
        call_ensures(WriterState::new, (), states[0]),
        forall|i: int|
            0 <= i < events.len() ==> states[i].expects(#[trigger] events[i]) && states[i + 1]
                == states[i].after(events[i]),
        0 <= start < end < events.len(),
        events[start] is Job,
        forall|i: int| start < i < end ==> #[trigger] events[i] is Connected,
        !(events[end] is Connected),
    ensures
        ({
            let rows = events[start]->Job_rows;
            let tally = states[end].tally(events[end]);
            &&& events[end] is Written || events[end] is ConnectFailed || events[end] is WriteFailed
            &&& tally.rows_sent == if events[end] is Written {
                rows
            } else {
                0
            }
            &&& tally.rows_dropped == if events[end] is Written {
                0
            } else {
                rows
            }
            &&& tally.flush_errors == if events[end] is WriteFailed {
                1u64
            } else {
                0u64
            }
        }),
        forall|i: int|
            start <= i < end ==> {
                let tally = states[i].tally(#[trigger] events[i]);
                tally.rows_sent == 0 && tally.rows_dropped == 0 && tally.flush_errors == 0
            },
{
    assert(is_run(states, events));
    lemma_state(states, events, end);
    assert(states[end].expects(events[end]));
    if end > start + 1 {
        assert(events[end - 1] is Connected);
        if end > start + 2 {
            assert(events[end - 2] is Connected);
        }
    }
}

/// How many failures to connect there are from `n` up to `i`.
spec fn failures(events: Seq<WriterEvent>, n: int, i: int) -> nat {
    events.subrange(n, i).filter(|event: WriterEvent| event is ConnectFailed).len()
}

proof fn lemma_one_more(events: Seq<WriterEvent>, n: int, i: int)
    requires
        0 <= n <= i < events.len(),
    ensures
        failures(events, n, i + 1) == failures(events, n, i) + if events[i] is ConnectFailed {
            1nat
        } else {
            0nat
        },
        failures(events, n, n) == 0,
{
    let failed = |event: WriterEvent| event is ConnectFailed;
    assert(events.subrange(n, i + 1).drop_last() =~= events.subrange(n, i));
    assert(events.subrange(n, n) =~= Seq::empty());
    reveal(Seq::filter);
}

proof fn lemma_wait(states: Seq<WriterState>, events: Seq<WriterEvent>, n: int, i: int)
    requires
        is_run(states, events),
        0 <= n <= i <= events.len(),
        n == 0 || events[n - 1] is Connected,
        forall|j: int| n <= j < i ==> !(#[trigger] events[j] is Connected),
    ensures
        states[i].backoff == if pow2(failures(events, n, i)) <= 30 {
            pow2(failures(events, n, i))
        } else {
            30
        },
    decreases i,
{
    lemma2_to64();
    if i == n {
        assert(events.subrange(n, n) =~= Seq::empty());
        reveal(Seq::filter);
        if n > 0 {
            assert(states[n - 1].expects(events[n - 1]));
            assert(states[n - 1 + 1] == states[n - 1].after(events[n - 1]));
        }
    } else {
        lemma_wait(states, events, n, i - 1);
        lemma_one_more(events, n, i - 1);
        assert(!(events[i - 1] is Connected));
        assert(states[i - 1].expects(events[i - 1]));
        assert(states[i - 1 + 1] == states[i - 1].after(events[i - 1]));
        lemma_pow2_unfold(failures(events, n, i - 1) + 1);
    }
}

/// Only failures to connect lengthen the wait, and only a connection shortens it: with `k` failures
/// to connect since the last connection, or since the start, it is two to the power of `k` seconds,
/// and at most thirty.
pub proof fn wait_doubles_with_each_failure_since_the_last_connection(
    states: Seq<WriterState>,
    events: Seq<WriterEvent>,
    n: int,
    i: int,
)
    requires
        states.len() == events.len() + 1,
        call_ensures(WriterState::new, (), states[0]),
        forall|i: int|
            0 <= i < events.len() ==> states[i].expects(#[trigger] events[i]) && states[i + 1]
                == states[i].after(events[i]),
        0 <= n <= i <= events.len(),
        n == 0 || events[n - 1] is Connected,
        forall|j: int| n <= j < i ==> !(#[trigger] events[j] is Connected),
    ensures
        ({
            let k = events.subrange(n, i).filter(
                |event: WriterEvent| event is ConnectFailed,
            ).len();
            states[i].backoff == if pow2(k) <= 30 {
                pow2(k)
            } else {
                30
            }
        }),
{
    assert(is_run(states, events));
    lemma_wait(states, events, n, i);
}

/// The first failure to connect after a connection, however it was lost, is followed by a sleep of
/// one second.
pub proof fn first_failure_after_a_connection_waits_one_second(
    states: Seq<WriterState>,
    events: Seq<WriterEvent>,
    n: int,
    i: int,
)
    requires
        states.len() == events.len() + 1,
        call_ensures(WriterState::new, (), states[0]),
        forall|i: int|
            0 <= i < events.len() ==> states[i].expects(#[trigger] events[i]) && states[i + 1]
                == states[i].after(events[i]),
        0 <= n <= i < events.len(),
        n == 0 || events[n - 1] is Connected,
        forall|j: int|
            n <= j < i ==> !(#[trigger] events[j] is Connected) && !(events[j] is ConnectFailed),
        events[i] is ConnectFailed,
    ensures
        states[i].action(events[i]) == (WriterAction::Sleep { seconds: 1 }),
    decreases i - n,
{
    assert(is_run(states, events));
    lemma_wait(states, events, n, i);
    lemma_none(events, n, i);
    lemma2_to64();
}

proof fn lemma_none(events: Seq<WriterEvent>, n: int, i: int)
    requires
        0 <= n <= i < events.len(),
        forall|j: int| n <= j < i ==> !(#[trigger] events[j] is ConnectFailed),
    ensures
        failures(events, n, i) == 0,
    decreases i - n,
{
    if n < i {
        lemma_none(events, n, i - 1);
        lemma_one_more(events, n, i - 1);
        assert(!(events[i - 1] is ConnectFailed));
    } else {
        lemma_one_more(events, n, i);
    }
}

/// Taking an event in leads to the next state of the run and gives its action and what it counts.
pub proof fn a_step_is_one_of_the_run(
    state: &mut WriterState,
    event: WriterEvent,
    next: (WriterAction, Tally),
)
    requires
        call_ensures(WriterState::step, (state, event), next),
    ensures
        *final(state) == old(state).after(event),
        next.0 == old(state).action(event),
        next.1 == old(state).tally(event),
{
}

/// A step changes the wait only by connecting, which makes it one second, or by failing to connect,
/// which doubles it up to thirty; it sleeps only when it fails to connect, for as long as the wait
/// was.
pub proof fn only_connecting_changes_the_wait(
    state: &mut WriterState,
    event: WriterEvent,
    next: (WriterAction, Tally),
)
    requires
        call_ensures(WriterState::step, (state, event), next),
    ensures
        event is Connected ==> final(state).backoff == 1,
        event is ConnectFailed && 2 * old(state).backoff <= 30 ==> final(state).backoff == 2 * old(
            state,
        ).backoff,
        event is ConnectFailed && 2 * old(state).backoff > 30 ==> final(state).backoff == 30,
        !(event is Connected) && !(event is ConnectFailed) ==> final(state).backoff == old(
            state,
        ).backoff,
        next.0 is Sleep <==> event is ConnectFailed,
        next.0 matches WriterAction::Sleep { seconds } ==> seconds == old(state).backoff,
{
}

} // verus!
