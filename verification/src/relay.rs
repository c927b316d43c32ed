//! How an established connection ends.
//!
//! The two directions of a connection end separately. A client that has nothing
//! more to send may still be waiting for answers, and a server that has gone
//! leaves a client that has to be told.

use crate::clock::Span;
use crate::limits::Limits;
use vstd::prelude::*;

verus! {

/// Which directions of a connection are still open.
#[derive(Clone, Copy, Debug, PartialEq, Eq, Structural)]
pub enum RelayState {
    /// Both.
    Open,
    /// The client has finished sending; PostgreSQL may still answer.
    ClientFinished,
    /// PostgreSQL has gone; the client has been told and may still react.
    ServerFinished,
    /// Neither.
    Closed,
}

/// What happened to a direction.
#[derive(Clone, Copy, Debug, PartialEq, Eq, Structural)]
pub enum RelayEvent {
    /// Nothing more comes from the client.
    ClientEof,
    /// Nothing more comes from PostgreSQL.
    ServerEof,
    /// The time that a client has to react is over.
    DrainElapsed,
}

/// What to do about it.
#[derive(Clone, Copy, Debug, PartialEq, Eq, Structural)]
pub enum RelayStep {
    /// Go on as before.
    Continue,
    /// Send EOF to PostgreSQL and go on delivering what it still answers.
    FinishServer,
    /// Send EOF to the client and wait this long for it to react.
    FinishClient(Span),
    /// Close both sockets.
    Close,
}

/// What becomes of a connection on an event.
pub open spec fn relay_next(state: RelayState, event: RelayEvent, drain: Span) -> (
    RelayState,
    RelayStep,
) {
    match (state, event) {
        (RelayState::Open, RelayEvent::ClientEof) => (
            RelayState::ClientFinished,
            RelayStep::FinishServer,
        ),
        (RelayState::Open, RelayEvent::ServerEof) => (
            RelayState::ServerFinished,
            RelayStep::FinishClient(drain),
        ),
        (RelayState::ClientFinished, RelayEvent::ServerEof) => (
            RelayState::Closed,
            RelayStep::Close,
        ),
        (RelayState::ServerFinished, RelayEvent::ClientEof) => (
            RelayState::Closed,
            RelayStep::Close,
        ),
        (RelayState::ServerFinished, RelayEvent::DrainElapsed) => (
            RelayState::Closed,
            RelayStep::Close,
        ),
        (RelayState::Closed, _) => (RelayState::Closed, RelayStep::Close),
        _ => (state, RelayStep::Continue),
    }
}

/// What becomes of a connection on an event.
pub fn relay_step(state: RelayState, event: RelayEvent, limits: &Limits) -> (r: (
    RelayState,
    RelayStep,
))
    ensures
        r == relay_next(state, event, limits.drain_timeout),
{
    match (state, event) {
        (RelayState::Open, RelayEvent::ClientEof) => (
            RelayState::ClientFinished,
            RelayStep::FinishServer,
        ),
        (RelayState::Open, RelayEvent::ServerEof) => (
            RelayState::ServerFinished,
            RelayStep::FinishClient(limits.drain_timeout),
        ),
        (RelayState::ClientFinished, RelayEvent::ServerEof) => (
            RelayState::Closed,
            RelayStep::Close,
        ),
        (RelayState::ServerFinished, RelayEvent::ClientEof) => (
            RelayState::Closed,
            RelayStep::Close,
        ),
        (RelayState::ServerFinished, RelayEvent::DrainElapsed) => (
            RelayState::Closed,
            RelayStep::Close,
        ),
        (RelayState::Closed, _) => (RelayState::Closed, RelayStep::Close),
        _ => (state, RelayStep::Continue),
    }
}

/// The state of a connection after events.
pub open spec fn relay_after(history: Seq<RelayEvent>, drain: Span) -> RelayState
    decreases history.len(),
{
    if history.len() == 0 {
        RelayState::Open
    } else {
        relay_next(relay_after(history.drop_last(), drain), history.last(), drain).0
    }
}

/// A client that has finished sending still gets every answer: the connection is
/// not closed until PostgreSQL has finished too.
pub proof fn a_half_closed_client_is_served(history: Seq<RelayEvent>, drain: Span)
    requires
        !history.contains(RelayEvent::ServerEof),
    ensures
        relay_after(history, drain) == RelayState::Open || relay_after(history, drain)
            == RelayState::ClientFinished,
    decreases history.len(),
{
    if history.len() > 0 {
        let front = history.drop_last();
        assert forall|i: int| 0 <= i < front.len() implies front[i] != RelayEvent::ServerEof by {
            assert(history.contains(history[i]));
        }
        assert(history.contains(history.last()));
        a_half_closed_client_is_served(front, drain);
    }
}

/// When PostgreSQL has gone, the connection does not outlive the drain timeout,
/// whatever the client does.
pub proof fn a_gone_server_ends_the_connection(history: Seq<RelayEvent>, drain: Span)
    requires
        history.contains(RelayEvent::ServerEof),
    ensures
        relay_next(relay_after(history, drain), RelayEvent::DrainElapsed, drain).0
            == RelayState::Closed,
    decreases history.len(),
{
    let front = history.drop_last();
    if history.last() == RelayEvent::ServerEof {
    } else {
        let i = choose|i: int| 0 <= i < history.len() && history[i] == RelayEvent::ServerEof;
        assert(front[i] == RelayEvent::ServerEof);
        a_gone_server_ends_the_connection(front, drain);
    }
}

/// A direction that has ended stays ended.
proof fn ended_directions_stay_ended(history: Seq<RelayEvent>, drain: Span)
    ensures
        history.contains(RelayEvent::ClientEof) ==> relay_after(history, drain)
            == RelayState::ClientFinished || relay_after(history, drain) == RelayState::Closed,
        history.contains(RelayEvent::ServerEof) ==> relay_after(history, drain)
            == RelayState::ServerFinished || relay_after(history, drain) == RelayState::Closed,
    decreases history.len(),
{
    if history.len() > 0 {
        let front = history.drop_last();
        ended_directions_stay_ended(front, drain);
        assert forall|event: RelayEvent| history.contains(event) implies event == history.last()
            || front.contains(event) by {
            let i = choose|i: int| 0 <= i < history.len() && history[i] == event;
            if i < front.len() {
                assert(front[i] == event);
            }
        }
    }
}

/// When both sides have finished, in either order and whatever else happened, the
/// connection is closed.
pub proof fn both_sides_finished_is_closed(history: Seq<RelayEvent>, drain: Span)
    requires
        history.contains(RelayEvent::ClientEof),
        history.contains(RelayEvent::ServerEof),
    ensures
        relay_after(history, drain) == RelayState::Closed,
{
    ended_directions_stay_ended(history, drain);
}

} // verus!
