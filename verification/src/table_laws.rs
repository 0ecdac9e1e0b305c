//! What holds of the table of connections.

use vstd::prelude::*;

use crate::drive::is_due;
use crate::operations::{accept_reply, connect_reply, is_earliest, with_registered};
use crate::types::{AcceptError, ConnectionHandle, Instant, Protocol};

verus! {

/// An accepted or initiated connection is in the table from then on, in the
/// state that the endpoint gave it; the other connections stay as they are. An
/// attempt that failed leaves the table as it is.
pub proof fn law_new_connections_are_known<C, E>(
    connections: Map<ConnectionHandle, C>,
    outcome: Result<(ConnectionHandle, C), E>,
    other: ConnectionHandle,
)
    ensures
        outcome matches Ok((connection, state)) ==> {
            &&& with_registered(connections, outcome).contains_key(connection)
            &&& with_registered(connections, outcome)[connection] == state
            &&& other != connection ==> {
                &&& with_registered(connections, outcome).contains_key(other)
                    == connections.contains_key(other)
                &&& connections.contains_key(other) ==> with_registered(connections, outcome)[other]
                    == connections[other]
            }
        },
        outcome is Err ==> with_registered(connections, outcome) == connections,
{
}

/// An operation on a connection of the table leaves it in the table, in the state
/// that the next operation on it finds, and leaves the other connections as they
/// are. So the connections that a cycle knows of stay the same while its actions
/// are performed.
pub proof fn law_operations_touch_one_connection<C>(
    connections: Map<ConnectionHandle, C>,
    connection: ConnectionHandle,
    state: C,
    other: ConnectionHandle,
)
    requires
        connections.contains_key(connection),
    ensures
        connections.insert(connection, state).dom() == connections.dom(),
        connections.insert(connection, state)[connection] == state,
        connections.contains_key(other) && other != connection ==> connections.insert(
            connection,
            state,
        )[other] == connections[other],
{
    assert(connections.insert(connection, state).dom() =~= connections.dom());
}

/// The earliest of the deadlines is due where, and only where, one of them is.
pub proof fn law_earliest_is_due_first(
    next: Option<Instant>,
    deadlines: Map<ConnectionHandle, Option<Instant>>,
    now: Instant,
)
    requires
        is_earliest(next, deadlines),
    ensures
        is_due(next, now) <==> exists|connection: ConnectionHandle| #[trigger]
            deadlines.contains_key(connection) && is_due(deadlines[connection], now),
{
}

/// The next deadline is one that a connection has, and no connection has an earlier
/// one; there is none where, and only where, no connection has a deadline. So a time
/// has reached it where, and only where, it has reached the deadline of a connection.
pub proof fn law_next_deadline_is_the_earliest(
    next: Option<Instant>,
    deadlines: Map<ConnectionHandle, Option<Instant>>,
    now: Instant,
)
    requires
        is_earliest(next, deadlines),
    ensures
        next is None <==> forall|connection: ConnectionHandle| #[trigger]
            deadlines.contains_key(connection) ==> deadlines[connection] is None,
        next is Some ==> exists|connection: ConnectionHandle| #[trigger]
            deadlines.contains_key(connection) && deadlines[connection] == next,
        forall|connection: ConnectionHandle| #[trigger]
            deadlines.contains_key(connection) && deadlines[connection] is Some ==> next is Some
                && next->0 <= deadlines[connection]->0,
        (next matches Some(instant) && now >= instant) <==> exists|connection: ConnectionHandle|
         #[trigger]
            deadlines.contains_key(connection) && (deadlines[connection] matches Some(deadline)
                && now >= deadline),
{
}

/// A deadline is due from its instant on, and not before.
pub proof fn law_deadlines_are_due_from_their_instant(deadline: Option<Instant>, now: Instant)
    ensures
        is_due(deadline, now) <==> (deadline matches Some(instant) && instant <= now),
{
}

/// The outcome of an attempt to accept a connection is returned as it is: the
/// handle of an accepted connection, with nothing to send, or the cause of the
/// refusal, with the response that came with it.
pub proof fn law_accepting_returns_the_outcome<P: Protocol>(
    outcome: Result<(ConnectionHandle, P::Connection), AcceptError<P>>,
    connection: ConnectionHandle,
    cause: P::ConnectionError,
)
    ensures
        accept_reply::<P>(outcome).0 == Ok::<_, P::ConnectionError>(connection) <==> (
        outcome matches Ok((handle, _)) && handle == connection),
        accept_reply::<P>(outcome).0 == Err::<ConnectionHandle, _>(cause) <==> (
        outcome matches Err(error) && error.cause == cause),
        outcome is Ok ==> accept_reply::<P>(outcome).1 is None,
        outcome matches Err(error) ==> accept_reply::<P>(outcome).1 == error.response,
{
}

/// The outcome of an attempt to connect is returned as it is: the handle of the
/// connection, or the error.
pub proof fn law_connecting_returns_the_outcome<P: Protocol>(
    outcome: Result<(ConnectionHandle, P::Connection), P::ConnectError>,
    connection: ConnectionHandle,
    cause: P::ConnectError,
)
    ensures
        connect_reply::<P>(outcome) == Ok::<_, P::ConnectError>(connection) <==> (
        outcome matches Ok((handle, _)) && handle == connection),
        connect_reply::<P>(outcome) == Err::<ConnectionHandle, _>(cause) <==> (
        outcome matches Err(error) && error == cause),
{
}

/// The handle that an accepted or initiated connection is returned under is the one
/// that it is found under, in the state that the endpoint gave it.
pub proof fn law_returned_handles_find_their_connections<P: Protocol>(
    connections: Map<ConnectionHandle, P::Connection>,
    accepted: Result<(ConnectionHandle, P::Connection), AcceptError<P>>,
    connected: Result<(ConnectionHandle, P::Connection), P::ConnectError>,
)
    ensures
        accept_reply::<P>(accepted).0 matches Ok(handle) ==> {
            &&& with_registered(connections, accepted).contains_key(handle)
            &&& accepted matches Ok((_, state))
            &&& with_registered(connections, accepted)[handle] == state
        },
        connect_reply::<P>(connected) matches Ok(handle) ==> {
            &&& with_registered(connections, connected).contains_key(handle)
            &&& connected matches Ok((_, state))
            &&& with_registered(connections, connected)[handle] == state
        },
{
}

} // verus!
