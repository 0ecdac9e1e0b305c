//! What holds of operations on a driver in a row.
//!
//! A sequence of states stands for what the driver holds after each of the
//! operations. The laws on streams speak of what the operations ensure, for
//! every protocol whose calls meet the rule that the law names.

use vstd::prelude::*;
use vstd::std_specs::convert::FromSpec;

use crate::driver::{keeps_known, DriverState};
use crate::operations::{finish_reply, recv_reply, send_reply, with_registered};
use crate::types::{ClosedStream, ConnectionHandle, PollDriverError, Protocol};

verus! {

/// Each of the states follows on the one before by an operation that keeps the
/// known connections, as every operation but a drive cycle does.
pub open spec fn without_drive<P: Protocol>(states: Seq<DriverState<P>>) -> bool {
    forall|i: int|
        #![trigger states[i]]
        0 <= i < states.len() - 1 ==> keeps_known(states[i], states[i + 1])
}

/// A call on a connection of the table, and a new connection, keep the known
/// connections.
pub proof fn law_operations_keep_known<P: Protocol, E>(
    before: DriverState<P>,
    connection: ConnectionHandle,
    state: P::Connection,
    outcome: Result<(ConnectionHandle, P::Connection), E>,
)
    ensures
        keeps_known(
            before,
            (DriverState { connections: before.connections.insert(connection, state), ..before }),
        ),
        keeps_known(
            before,
            (DriverState { connections: with_registered(before.connections, outcome), ..before }),
        ),
{
}

/// A known connection stays known over any sequence of operations without a
/// drive cycle.
pub proof fn law_handles_stay_known<P: Protocol>(states: Seq<DriverState<P>>, i: int, j: int)
    requires
        without_drive(states),
        0 <= i <= j < states.len(),
    ensures
        keeps_known(states[i], states[j]),
    decreases j - i,
{
    if i < j {
        law_handles_stay_known(states, i, j - 1);
        assert(keeps_known(states[j - 1], states[j - 1 + 1]));
    }
}

/// Only a drive cycle can make a connection unknown: the handle that an accepted
/// or initiated connection got is known after any sequence of other operations.
pub proof fn law_only_a_cycle_forgets<P: Protocol, E>(
    connections: Map<ConnectionHandle, P::Connection>,
    outcome: Result<(ConnectionHandle, P::Connection), E>,
    states: Seq<DriverState<P>>,
)
    requires
        outcome is Ok,
        states.len() > 0,
        states.first().connections == with_registered(connections, outcome),
        without_drive(states),
    ensures
        states.last().connections.contains_key((outcome->Ok_0).0),
{
    law_handles_stay_known(states, 0, states.len() - 1);
    assert(states.first().connections.contains_key((outcome->Ok_0).0));
}

/// `connection` is known before and after, and is as it was or as a call of the
/// protocol left it; `calls` relates the state of a connection before such a call
/// to that after it.
pub open spec fn carries<P: Protocol>(
    before: DriverState<P>,
    after: DriverState<P>,
    connection: ConnectionHandle,
    calls: spec_fn(P::Connection, P::Connection) -> bool,
) -> bool {
    &&& before.connections.contains_key(connection)
    &&& after.connections.contains_key(connection)
    &&& after.connections[connection] == before.connections[connection] || calls(
        before.connections[connection],
        after.connections[connection],
    )
}

/// Each of the states carries `connection` on from the one before.
pub open spec fn carried<P: Protocol>(
    states: Seq<DriverState<P>>,
    connection: ConnectionHandle,
    calls: spec_fn(P::Connection, P::Connection) -> bool,
) -> bool {
    forall|i: int|
        #![trigger states[i]]
        0 <= i < states.len() - 1 ==> carries(states[i], states[i + 1], connection, calls)
}

/// A call on a connection of the table carries every known connection on: that
/// one as the call left it, and the others as they were.
pub proof fn law_operations_carry_connections<P: Protocol>(
    before: DriverState<P>,
    connection: ConnectionHandle,
    state: P::Connection,
    other: ConnectionHandle,
    calls: spec_fn(P::Connection, P::Connection) -> bool,
)
    requires
        before.connections.contains_key(connection),
        before.connections.contains_key(other),
        calls(before.connections[connection], state),
    ensures
        carries(
            before,
            (DriverState { connections: before.connections.insert(connection, state), ..before }),
            other,
            calls,
        ),
{
}

/// What the calls of the protocol keep true of a connection stays true of it over
/// any sequence of operations that carries it on.
pub proof fn law_kept_facts_stay_true<P: Protocol>(
    states: Seq<DriverState<P>>,
    connection: ConnectionHandle,
    calls: spec_fn(P::Connection, P::Connection) -> bool,
    fact: spec_fn(P::Connection) -> bool,
)
    requires
        states.len() > 0,
        carried(states, connection, calls),
        forall|before: P::Connection, after: P::Connection|
            fact(before) && #[trigger] calls(before, after) ==> fact(after),
        fact(states.first().connections[connection]),
    ensures
        fact(states.last().connections[connection]),
    decreases states.len(),
{
    if states.len() > 1 {
        let earlier = states.drop_last();
        assert(carried(earlier, connection, calls)) by {
            assert forall|i: int|
                #![trigger earlier[i]]
                0 <= i < earlier.len() - 1 implies carries(
                earlier[i],
                earlier[i + 1],
                connection,
                calls,
            ) by {
                assert(carries(states[i], states[i + 1], connection, calls));
            }
        }
        law_kept_facts_stay_true(earlier, connection, calls, fact);
        let last = states.len() - 2;
        assert(carries(states[last], states[last + 1], connection, calls));
    }
}

/// Two reads of a stream in a row return consecutive bytes of it: none is
/// delivered twice, and none is skipped. `start`, `middle` and `end` are what the
/// driver holds before, between and after the reads, `first` and `second` what the
/// buffers hold after them.
///
/// The rule for the protocol: a read that returns a count delivers that many of
/// the `unread` bytes of the stream, from the first on, and leaves the others
/// unread.
pub proof fn law_reads_are_consecutive<P: Protocol, F, G>(
    start: DriverState<P>,
    middle: DriverState<P>,
    end: DriverState<P>,
    connection: ConnectionHandle,
    stream: P::StreamId,
    read: F,
    read_again: G,
    first: Seq<u8>,
    second: Seq<u8>,
    received: usize,
    received_again: usize,
    unread: spec_fn(P::Connection) -> Seq<u8>,
) where
    F: FnOnce(&mut P::Connection, P::StreamId, bool, &mut [u8]) -> Result<
        Result<usize, P::ReadError>,
        P::ReadableError,
    >,
    G: FnOnce(&mut P::Connection, P::StreamId, bool, &mut [u8]) -> Result<
        Result<usize, P::ReadError>,
        P::ReadableError,
    >,

    requires
        start.connections.contains_key(connection),
        exists|
            state: &mut P::Connection,
            lent: &mut [u8],
            outcome: Result<Result<usize, P::ReadError>, P::ReadableError>,
        | {
            &&& #[trigger] call_ensures(read, (state, stream, true, lent), outcome)
            &&& *state == start.connections[connection]
            &&& first == final(lent)@
            &&& middle == (DriverState {
                connections: start.connections.insert(connection, *final(state)),
                ..start
            })
            &&& Ok::<usize, PollDriverError<P>>(received) == recv_reply::<P>(outcome)
        },
        exists|
            state: &mut P::Connection,
            lent: &mut [u8],
            outcome: Result<Result<usize, P::ReadError>, P::ReadableError>,
        | {
            &&& #[trigger] call_ensures(read_again, (state, stream, true, lent), outcome)
            &&& *state == middle.connections[connection]
            &&& second == final(lent)@
            &&& end == (DriverState {
                connections: middle.connections.insert(connection, *final(state)),
                ..middle
            })
            &&& Ok::<usize, PollDriverError<P>>(received_again) == recv_reply::<P>(outcome)
        },
        forall|state: &mut P::Connection, lent: &mut [u8], count: usize| #[trigger]
            call_ensures(read, (state, stream, true, lent), Ok(Ok(count))) ==> {
                &&& count <= unread(*state).len()
                &&& count <= final(lent)@.len()
                &&& final(lent)@.take(count as int) == unread(*state).take(count as int)
                &&& unread(*final(state)) == unread(*state).skip(count as int)
            },
        forall|state: &mut P::Connection, lent: &mut [u8], count: usize| #[trigger]
            call_ensures(read_again, (state, stream, true, lent), Ok(Ok(count))) ==> {
                &&& count <= unread(*state).len()
                &&& count <= final(lent)@.len()
                &&& final(lent)@.take(count as int) == unread(*state).take(count as int)
                &&& unread(*final(state)) == unread(*state).skip(count as int)
            },
    ensures
        first.take(received as int) + second.take(received_again as int) == unread(
            start.connections[connection],
        ).take(received + received_again),
        unread(end.connections[connection]) == unread(start.connections[connection]).skip(
            received + received_again,
        ),
{
}

/// Nothing can be written to a stream after it was finished, whatever operations
/// carried the connection on in between. `start` is what the driver holds before
/// the stream is finished, `between` what it holds from then on until the write,
/// and `end` what it holds after that.
///
/// The rule for the protocol: to finish a stream closes it, no call opens it
/// again, and a write to a closed stream fails.
pub proof fn law_finished_streams_refuse_data<P: Protocol, F, G>(
    start: DriverState<P>,
    between: Seq<DriverState<P>>,
    end: DriverState<P>,
    connection: ConnectionHandle,
    stream: P::StreamId,
    data: &[u8],
    finish: F,
    write: G,
    written: Result<usize, PollDriverError<P>>,
    calls: spec_fn(P::Connection, P::Connection) -> bool,
    closed_for_data: spec_fn(P::Connection) -> bool,
) where
    F: FnOnce(&mut P::Connection, P::StreamId) -> Result<(), P::FinishError>,
    G: FnOnce(&mut P::Connection, P::StreamId, &[u8]) -> Result<usize, P::WriteError>,

    requires
        start.connections.contains_key(connection),
        between.len() > 0,
        exists|state: &mut P::Connection, outcome: Result<(), P::FinishError>| {
            &&& #[trigger] call_ensures(finish, (state, stream), outcome)
            &&& *state == start.connections[connection]
            &&& between.first() == (DriverState {
                connections: start.connections.insert(connection, *final(state)),
                ..start
            })
            &&& Ok::<(), PollDriverError<P>>(()) == finish_reply::<P>(outcome)
        },
        carried(between, connection, calls),
        exists|state: &mut P::Connection, outcome: Result<usize, P::WriteError>| {
            &&& #[trigger] call_ensures(write, (state, stream, data), outcome)
            &&& *state == between.last().connections[connection]
            &&& end == (DriverState {
                connections: between.last().connections.insert(connection, *final(state)),
                ..between.last()
            })
            &&& written == send_reply::<P>(outcome)
        },
        forall|state: &mut P::Connection, outcome: Result<(), P::FinishError>| #[trigger]
            call_ensures(finish, (state, stream), outcome) && outcome is Ok ==> closed_for_data(
                *final(state),
            ),
        forall|before: P::Connection, after: P::Connection|
            closed_for_data(before) && #[trigger] calls(before, after) ==> closed_for_data(after),
        forall|state: &mut P::Connection, outcome: Result<usize, P::WriteError>|
            closed_for_data(*state) && #[trigger] call_ensures(
                write,
                (state, stream, data),
                outcome,
            ) ==> outcome is Err,
    ensures
        written matches Err(PollDriverError::Write(_)),
{
    law_kept_facts_stay_true(between, connection, calls, closed_for_data);
}

/// What is returned of a read, a write or the end of a stream is its outcome: a count
/// as it is, whatever it is, and a failure under its own kind.
pub proof fn law_outcomes_are_returned<P: Protocol>(
    read: Result<Result<usize, P::ReadError>, P::ReadableError>,
    write: Result<usize, P::WriteError>,
    finish: Result<(), P::FinishError>,
    count: usize,
)
    ensures
        recv_reply::<P>(read) == Ok::<_, PollDriverError<P>>(count) <==> (read matches Ok(Ok(bytes))
            && bytes == count),
        read matches Ok(Err(error)) ==> recv_reply::<P>(read) == Err::<usize, _>(
            PollDriverError::<P>::Read(error),
        ),
        read matches Err(error) ==> recv_reply::<P>(read) == Err::<usize, _>(
            PollDriverError::<P>::Readable(error),
        ),
        send_reply::<P>(write) == Ok::<_, PollDriverError<P>>(count) <==> (write matches Ok(bytes)
            && bytes == count),
        write matches Err(error) ==> send_reply::<P>(write) == Err::<usize, _>(
            PollDriverError::<P>::Write(error),
        ),
        finish is Ok <==> finish_reply::<P>(finish) is Ok,
        finish matches Err(error) ==> finish_reply::<P>(finish) == Err::<(), _>(
            PollDriverError::<P>::Finish(error),
        ),
{
}

/// A read loses nothing: the bytes that were unread before it are those that the
/// buffer holds up to the count that was returned, none where it failed, followed by
/// those that are unread after it. `buffer` is what the buffer holds after the read.
///
/// The rule for the protocol: a read that gives a count delivers that many of the
/// `unread` bytes, from the first on, and leaves the others unread; one that fails
/// leaves all of them.
pub proof fn law_reads_lose_nothing<P: Protocol, F>(
    start: DriverState<P>,
    end: DriverState<P>,
    connection: ConnectionHandle,
    stream: P::StreamId,
    read: F,
    buffer: Seq<u8>,
    received: Result<usize, PollDriverError<P>>,
    unread: spec_fn(P::Connection) -> Seq<u8>,
) where
    F: FnOnce(&mut P::Connection, P::StreamId, bool, &mut [u8]) -> Result<
        Result<usize, P::ReadError>,
        P::ReadableError,
    >,

    requires
        start.connections.contains_key(connection),
        exists|
            state: &mut P::Connection,
            lent: &mut [u8],
            outcome: Result<Result<usize, P::ReadError>, P::ReadableError>,
        | {
            &&& #[trigger] call_ensures(read, (state, stream, true, lent), outcome)
            &&& *state == start.connections[connection]
            &&& buffer == final(lent)@
            &&& end == (DriverState {
                connections: start.connections.insert(connection, *final(state)),
                ..start
            })
            &&& received == recv_reply::<P>(outcome)
        },
        forall|
            state: &mut P::Connection,
            lent: &mut [u8],
            outcome: Result<Result<usize, P::ReadError>, P::ReadableError>,
        | #[trigger]
            call_ensures(read, (state, stream, true, lent), outcome) ==> match outcome {
                Ok(Ok(count)) => {
                    &&& count <= unread(*state).len()
                    &&& count <= final(lent)@.len()
                    &&& final(lent)@.take(count as int) == unread(*state).take(count as int)
                    &&& unread(*final(state)) == unread(*state).skip(count as int)
                },
                _ => unread(*final(state)) == unread(*state),
            },
    ensures
        unread(start.connections[connection]) == match received {
            Ok(count) => buffer.take(count as int) + unread(end.connections[connection]),
            Err(_) => unread(end.connections[connection]),
        },
{
}

/// The count that a write returns is what the protocol took: the bytes that it has
/// `taken` after the write are those before, followed by that many of the data, from
/// the first on, and by none where the write failed.
///
/// The rule for the protocol: a write that gives a count takes that many of the data,
/// from the first on; one that fails takes none.
pub proof fn law_writes_count_what_was_taken<P: Protocol, F>(
    start: DriverState<P>,
    end: DriverState<P>,
    connection: ConnectionHandle,
    stream: P::StreamId,
    data: &[u8],
    write: F,
    written: Result<usize, PollDriverError<P>>,
    taken: spec_fn(P::Connection) -> Seq<u8>,
) where F: FnOnce(&mut P::Connection, P::StreamId, &[u8]) -> Result<usize, P::WriteError>
    requires
        start.connections.contains_key(connection),
        exists|state: &mut P::Connection, outcome: Result<usize, P::WriteError>| {
            &&& #[trigger] call_ensures(write, (state, stream, data), outcome)
            &&& *state == start.connections[connection]
            &&& end == (DriverState {
                connections: start.connections.insert(connection, *final(state)),
                ..start
            })
            &&& written == send_reply::<P>(outcome)
        },
        forall|state: &mut P::Connection, outcome: Result<usize, P::WriteError>| #[trigger]
            call_ensures(write, (state, stream, data), outcome) ==> match outcome {
                Ok(count) => {
                    &&& count <= data@.len()
                    &&& taken(*final(state)) == taken(*state) + data@.take(count as int)
                },
                Err(_) => taken(*final(state)) == taken(*state),
            },
    ensures
        taken(end.connections[connection]) == match written {
            Ok(count) => taken(start.connections[connection]) + data@.take(count as int),
            Err(_) => taken(start.connections[connection]),
        },
        written matches Ok(count) ==> count <= data@.len(),
{
}

/// A caller that goes on with what a write left over sends every byte once: two writes
/// in a row, the second of them of `rest`, the data from the count of the first on, make
/// the protocol take the data up to the sum of their counts.
///
/// The rule for the protocol is that of [`law_writes_count_what_was_taken`].
pub proof fn law_writes_are_consecutive<P: Protocol, F, G>(
    start: DriverState<P>,
    middle: DriverState<P>,
    end: DriverState<P>,
    connection: ConnectionHandle,
    stream: P::StreamId,
    data: &[u8],
    rest: &[u8],
    write: F,
    write_again: G,
    written: usize,
    written_again: usize,
    taken: spec_fn(P::Connection) -> Seq<u8>,
) where
    F: FnOnce(&mut P::Connection, P::StreamId, &[u8]) -> Result<usize, P::WriteError>,
    G: FnOnce(&mut P::Connection, P::StreamId, &[u8]) -> Result<usize, P::WriteError>,

    requires
        start.connections.contains_key(connection),
        rest@ == data@.skip(written as int),
        exists|state: &mut P::Connection, outcome: Result<usize, P::WriteError>| {
            &&& #[trigger] call_ensures(write, (state, stream, data), outcome)
            &&& *state == start.connections[connection]
            &&& middle == (DriverState {
                connections: start.connections.insert(connection, *final(state)),
                ..start
            })
            &&& Ok::<usize, PollDriverError<P>>(written) == send_reply::<P>(outcome)
        },
        exists|state: &mut P::Connection, outcome: Result<usize, P::WriteError>| {
            &&& #[trigger] call_ensures(write_again, (state, stream, rest), outcome)
            &&& *state == middle.connections[connection]
            &&& end == (DriverState {
                connections: middle.connections.insert(connection, *final(state)),
                ..middle
            })
            &&& Ok::<usize, PollDriverError<P>>(written_again) == send_reply::<P>(outcome)
        },
        forall|state: &mut P::Connection, outcome: Result<usize, P::WriteError>| #[trigger]
            call_ensures(write, (state, stream, data), outcome) ==> match outcome {
                Ok(count) => {
                    &&& count <= data@.len()
                    &&& taken(*final(state)) == taken(*state) + data@.take(count as int)
                },
                Err(_) => taken(*final(state)) == taken(*state),
            },
        forall|state: &mut P::Connection, outcome: Result<usize, P::WriteError>| #[trigger]
            call_ensures(write_again, (state, stream, rest), outcome) ==> match outcome {
                Ok(count) => {
                    &&& count <= rest@.len()
                    &&& taken(*final(state)) == taken(*state) + rest@.take(count as int)
                },
                Err(_) => taken(*final(state)) == taken(*state),
            },
    ensures
        written + written_again <= data@.len(),
        taken(end.connections[connection]) == taken(start.connections[connection]) + data@.take(
            written + written_again,
        ),
{
    assert(data@.take(written as int) + rest@.take(written_again as int) == data@.take(
        written + written_again,
    ));
    let begun = taken(start.connections[connection]);
    assert(begun + data@.take(written as int) + rest@.take(written_again as int) == begun
        + data@.take(written + written_again));
}

/// A finish that fails is returned as a failure, and one that succeeds as a success:
/// the stream is closed after it where, and only where, it was closed before or the
/// finish returned `Ok`.
///
/// The rule for the protocol: a finish closes the stream where it succeeds, and changes
/// nothing about that where it fails.
pub proof fn law_finishing_tells_whether_it_closed<P: Protocol, F>(
    start: DriverState<P>,
    end: DriverState<P>,
    connection: ConnectionHandle,
    stream: P::StreamId,
    finish: F,
    finished: Result<(), PollDriverError<P>>,
    closed_for_data: spec_fn(P::Connection) -> bool,
) where F: FnOnce(&mut P::Connection, P::StreamId) -> Result<(), P::FinishError>
    requires
        start.connections.contains_key(connection),
        exists|state: &mut P::Connection, outcome: Result<(), P::FinishError>| {
            &&& #[trigger] call_ensures(finish, (state, stream), outcome)
            &&& *state == start.connections[connection]
            &&& end == (DriverState {
                connections: start.connections.insert(connection, *final(state)),
                ..start
            })
            &&& finished == finish_reply::<P>(outcome)
        },
        forall|state: &mut P::Connection, outcome: Result<(), P::FinishError>| #[trigger]
            call_ensures(finish, (state, stream), outcome) ==> closed_for_data(*final(state)) == (
            outcome is Ok || closed_for_data(*state)),
    ensures
        closed_for_data(end.connections[connection]) <==> finished is Ok || closed_for_data(
            start.connections[connection],
        ),
{
}

/// The protocol's word that a stream is closed becomes the error that says so.
pub proof fn law_closed_streams_are_told<P: Protocol>(closed: ClosedStream)
    ensures
        <PollDriverError<P> as FromSpec<ClosedStream>>::from_spec(closed) is ClosedStream,
        <PollDriverError<P> as FromSpec<ClosedStream>>::obeys_from_spec(),
{
}

} // verus!
