//! Operations of the application on the connections: streams, closing,
//! statistics, timeouts, and new connections.

use bytes::Bytes;
use vstd::prelude::*;

use crate::drive::lemma_first_of_pending;
use crate::driver::{keeps_known, DriverState, PollDriver};
use crate::types::{
    AcceptError, ConnectionHandle, Dir, Instant, PollDriverError, Protocol, Transmit,
};

verus! {

/// `next` is the earliest of the deadlines, if there are any.
pub open spec fn is_earliest(
    next: Option<Instant>,
    deadlines: Map<ConnectionHandle, Option<Instant>>,
) -> bool {
    match next {
        None => forall|connection: ConnectionHandle| #[trigger]
            deadlines.contains_key(connection) ==> deadlines[connection] is None,
        Some(next) => {
            &&& exists|connection: ConnectionHandle| #[trigger]
                deadlines.contains_key(connection) && deadlines[connection] == Some(next)
            &&& forall|connection: ConnectionHandle| #[trigger]
                deadlines.contains_key(connection) && deadlines[connection] is Some ==> next
                    <= deadlines[connection]->0
        },
    }
}

/// The earliest of some deadlines and one more.
proof fn lemma_earliest_with(
    earlier: Option<Instant>,
    deadlines: Map<ConnectionHandle, Option<Instant>>,
    connection: ConnectionHandle,
    answer: Option<Instant>,
    next: Option<Instant>,
)
    requires
        is_earliest(earlier, deadlines),
        !deadlines.contains_key(connection),
        next == match (earlier, answer) {
            (Some(earliest), Some(instant)) => if instant < earliest {
                answer
            } else {
                earlier
            },
            (None, Some(_)) => answer,
            (_, None) => earlier,
        },
    ensures
        is_earliest(next, deadlines.insert(connection, answer)),
{
    let more = deadlines.insert(connection, answer);
    assert(more.contains_key(connection));
    assert forall|other: ConnectionHandle| #[trigger] more.contains_key(other) && other
        != connection implies deadlines.contains_key(other) && more[other] == deadlines[other] by {}
    if earlier is Some {
        let holder = choose|holder: ConnectionHandle| #[trigger]
            deadlines.contains_key(holder) && deadlines[holder] == earlier;
        assert(more.contains_key(holder));
    }
}

/// The table with the connection that `outcome` brought, if it brought one.
pub open spec fn with_registered<C, E>(
    connections: Map<ConnectionHandle, C>,
    outcome: Result<(ConnectionHandle, C), E>,
) -> Map<ConnectionHandle, C> {
    match outcome {
        Ok((connection, state)) => connections.insert(connection, state),
        Err(_) => connections,
    }
}

/// What is returned of a read, which may fail to start or fail in its course.
pub open spec fn recv_reply<P: Protocol>(
    outcome: Result<Result<usize, P::ReadError>, P::ReadableError>,
) -> Result<usize, PollDriverError<P>> {
    match outcome {
        Ok(Ok(count)) => Ok(count),
        Ok(Err(error)) => Err(PollDriverError::Read(error)),
        Err(error) => Err(PollDriverError::Readable(error)),
    }
}

/// What is returned of a write.
pub open spec fn send_reply<P: Protocol>(outcome: Result<usize, P::WriteError>) -> Result<
    usize,
    PollDriverError<P>,
> {
    match outcome {
        Ok(count) => Ok(count),
        Err(error) => Err(PollDriverError::Write(error)),
    }
}

/// What is returned of an attempt to finish a stream.
pub open spec fn finish_reply<P: Protocol>(outcome: Result<(), P::FinishError>) -> Result<
    (),
    PollDriverError<P>,
> {
    match outcome {
        Ok(()) => Ok(()),
        Err(error) => Err(PollDriverError::Finish(error)),
    }
}

/// What is returned of an attempt to accept a connection.
pub open spec fn accept_reply<P: Protocol>(
    outcome: Result<(ConnectionHandle, P::Connection), AcceptError<P>>,
) -> (Result<ConnectionHandle, P::ConnectionError>, Option<Transmit<P::Address>>) {
    match outcome {
        Ok((connection, _)) => (Ok(connection), None),
        Err(error) => (Err(error.cause), error.response),
    }
}

/// What is returned of an attempt to connect.
pub open spec fn connect_reply<P: Protocol>(
    outcome: Result<(ConnectionHandle, P::Connection), P::ConnectError>,
) -> Result<ConnectionHandle, P::ConnectError> {
    match outcome {
        Ok((connection, _)) => Ok(connection),
        Err(error) => Err(error),
    }
}

impl<P: Protocol> PollDriver<P> {
    /// Read from a stream directly into a caller-provided buffer.
    ///
    /// `read` starts a read of the stream and fills the buffer; it fails where
    /// the read cannot be started, or in the course of it. It is told whether
    /// the read is to be ordered: this one always is. Returns the number of
    /// bytes read, or 0 if the stream is finished.
    pub fn stream_recv<F>(
        &mut self,
        connection: ConnectionHandle,
        stream: P::StreamId,
        buf: &mut [u8],
        read: F,
    ) -> (received: Result<usize, PollDriverError<P>>) where
        F: FnOnce(&mut P::Connection, P::StreamId, bool, &mut [u8]) -> Result<
            Result<usize, P::ReadError>,
            P::ReadableError,
        >,

        requires
            forall|state: &mut P::Connection, lent: &mut [u8]|
                old(self)@.connections.contains_key(connection) && *state
                    == old(self)@.connections[connection] && lent@ == old(buf)@
                    ==> #[trigger] call_requires(read, (state, stream, true, lent)),
        ensures
            keeps_known(old(self)@, final(self)@),
            !old(self)@.connections.contains_key(connection) ==> {
                &&& received == Err::<usize, _>(PollDriverError::<P>::UnknownConnection)
                &&& final(self)@ == old(self)@
                &&& final(buf)@ == old(buf)@
            },
            old(self)@.connections.contains_key(connection) ==> exists|
                state: &mut P::Connection,
                lent: &mut [u8],
                outcome: Result<Result<usize, P::ReadError>, P::ReadableError>,
            | {
                &&& #[trigger] call_ensures(read, (state, stream, true, lent), outcome)
                &&& *state == old(self)@.connections[connection]
                &&& lent@ == old(buf)@
                &&& final(buf)@ == final(lent)@
                &&& final(self)@ == (DriverState {
                    connections: old(self)@.connections.insert(connection, *final(state)),
                    ..old(self)@
                })
                &&& received == recv_reply::<P>(outcome)
                &&& outcome matches Ok(Ok(count)) ==> received == Ok::<_, PollDriverError<P>>(count)
                &&& outcome matches Ok(Err(error)) ==> received == Err::<usize, _>(
                    PollDriverError::<P>::Read(error),
                )
                &&& outcome matches Err(error) ==> received == Err::<usize, _>(
                    PollDriverError::<P>::Readable(error),
                )
            },
    {
        match self.lookup(connection) {
            Ok(state) => match read(state, stream, true, buf) {
                Ok(Ok(count)) => Ok(count),
                Ok(Err(error)) => Err(PollDriverError::Read(error)),
                Err(error) => Err(PollDriverError::Readable(error)),
            },
            Err(error) => Err(error),
        }
    }

    /// Write data to a stream.
    ///
    /// `write` does it. Returns the number of bytes written (may be less than
    /// `data.len()` if the stream's flow control window is full).
    pub fn stream_send<F>(
        &mut self,
        connection: ConnectionHandle,
        stream: P::StreamId,
        data: &[u8],
        write: F,
    ) -> (written: Result<usize, PollDriverError<P>>) where
        F: FnOnce(&mut P::Connection, P::StreamId, &[u8]) -> Result<usize, P::WriteError>,

        requires
            forall|state: &mut P::Connection|
                old(self)@.connections.contains_key(connection) && *state
                    == old(self)@.connections[connection]
                    ==> #[trigger] call_requires(write, (state, stream, data)),
        ensures
            keeps_known(old(self)@, final(self)@),
            !old(self)@.connections.contains_key(connection) ==> {
                &&& written == Err::<usize, _>(PollDriverError::<P>::UnknownConnection)
                &&& final(self)@ == old(self)@
            },
            old(self)@.connections.contains_key(connection) ==> exists|
                state: &mut P::Connection,
                outcome: Result<usize, P::WriteError>,
            | {
                &&& #[trigger] call_ensures(write, (state, stream, data), outcome)
                &&& *state == old(self)@.connections[connection]
                &&& final(self)@ == (DriverState {
                    connections: old(self)@.connections.insert(connection, *final(state)),
                    ..old(self)@
                })
                &&& written == send_reply::<P>(outcome)
                &&& outcome matches Ok(count) ==> written == Ok::<_, PollDriverError<P>>(count)
                &&& outcome matches Err(error) ==> written == Err::<usize, _>(
                    PollDriverError::<P>::Write(error),
                )
            },
    {
        match self.lookup(connection) {
            Ok(state) => match write(state, stream, data) {
                Ok(count) => Ok(count),
                Err(error) => Err(PollDriverError::Write(error)),
            },
            Err(error) => Err(error),
        }
    }

    /// Finish a send stream, signaling no more data will be written. `finish`
    /// does it.
    pub fn stream_finish<F>(
        &mut self,
        connection: ConnectionHandle,
        stream: P::StreamId,
        finish: F,
    ) -> (finished: Result<(), PollDriverError<P>>) where
        F: FnOnce(&mut P::Connection, P::StreamId) -> Result<(), P::FinishError>,

        requires
            forall|state: &mut P::Connection|
                old(self)@.connections.contains_key(connection) && *state
                    == old(self)@.connections[connection]
                    ==> #[trigger] call_requires(finish, (state, stream)),
        ensures
            keeps_known(old(self)@, final(self)@),
            !old(self)@.connections.contains_key(connection) ==> {
                &&& finished == Err::<(), _>(PollDriverError::<P>::UnknownConnection)
                &&& final(self)@ == old(self)@
            },
            old(self)@.connections.contains_key(connection) ==> exists|
                state: &mut P::Connection,
                outcome: Result<(), P::FinishError>,
            | {
                &&& #[trigger] call_ensures(finish, (state, stream), outcome)
                &&& *state == old(self)@.connections[connection]
                &&& final(self)@ == (DriverState {
                    connections: old(self)@.connections.insert(connection, *final(state)),
                    ..old(self)@
                })
                &&& finished == finish_reply::<P>(outcome)
                &&& outcome is Ok <==> finished is Ok
                &&& outcome matches Err(error) ==> finished == Err::<(), _>(
                    PollDriverError::<P>::Finish(error),
                )
            },
    {
        match self.lookup(connection) {
            Ok(state) => match finish(state, stream) {
                Ok(()) => Ok(()),
                Err(error) => Err(PollDriverError::Finish(error)),
            },
            Err(error) => Err(error),
        }
    }

    /// Open a new stream of the given direction, returning the stream ID, or
    /// `None` if the peer's stream limit has been reached. `open` does it.
    fn open<F>(&mut self, connection: ConnectionHandle, dir: Dir, open: F) -> (opened: Result<
        Option<P::StreamId>,
        PollDriverError<P>,
    >) where F: FnOnce(&mut P::Connection, Dir) -> Option<P::StreamId>
        requires
            forall|state: &mut P::Connection|
                old(self)@.connections.contains_key(connection) && *state
                    == old(self)@.connections[connection]
                    ==> #[trigger] call_requires(open, (state, dir)),
        ensures
            keeps_known(old(self)@, final(self)@),
            opened is Ok <==> old(self)@.connections.contains_key(connection),
            !old(self)@.connections.contains_key(connection) ==> {
                &&& opened == Err::<Option<P::StreamId>, _>(
                    PollDriverError::<P>::UnknownConnection,
                )
                &&& final(self)@ == old(self)@
            },
            old(self)@.connections.contains_key(connection) ==> exists|
                state: &mut P::Connection,
                outcome: Option<P::StreamId>,
            | {
                &&& #[trigger] call_ensures(open, (state, dir), outcome)
                &&& *state == old(self)@.connections[connection]
                &&& final(self)@ == (DriverState {
                    connections: old(self)@.connections.insert(connection, *final(state)),
                    ..old(self)@
                })
                &&& opened == Ok::<_, PollDriverError<P>>(outcome)
            },
    {
        match self.lookup(connection) {
            Ok(state) => Ok(open(state, dir)),
            Err(error) => Err(error),
        }
    }

    /// Open a new bidirectional stream, returning the stream ID. `open` opens a
    /// stream of the direction it is given.
    ///
    /// Returns `None` if the peer's stream limit has been reached.
    pub fn open_bi<F>(&mut self, connection: ConnectionHandle, open: F) -> (opened: Result<
        Option<P::StreamId>,
        PollDriverError<P>,
    >) where F: FnOnce(&mut P::Connection, Dir) -> Option<P::StreamId>
        requires
            forall|state: &mut P::Connection|
                old(self)@.connections.contains_key(connection) && *state
                    == old(self)@.connections[connection]
                    ==> #[trigger] call_requires(open, (state, Dir::Bi)),
        ensures
            keeps_known(old(self)@, final(self)@),
            opened is Ok <==> old(self)@.connections.contains_key(connection),
            !old(self)@.connections.contains_key(connection) ==> {
                &&& opened == Err::<Option<P::StreamId>, _>(
                    PollDriverError::<P>::UnknownConnection,
                )
                &&& final(self)@ == old(self)@
            },
            old(self)@.connections.contains_key(connection) ==> exists|
                state: &mut P::Connection,
                outcome: Option<P::StreamId>,
            | {
                &&& #[trigger] call_ensures(open, (state, Dir::Bi), outcome)
                &&& *state == old(self)@.connections[connection]
                &&& final(self)@ == (DriverState {
                    connections: old(self)@.connections.insert(connection, *final(state)),
                    ..old(self)@
                })
                &&& opened == Ok::<_, PollDriverError<P>>(outcome)
            },
    {
        self.open(connection, Dir::Bi, open)
    }

    /// Open a new unidirectional stream, returning the stream ID. `open` opens a
    /// stream of the direction it is given.
    ///
    /// Returns `None` if the peer's stream limit has been reached.
    pub fn open_uni<F>(&mut self, connection: ConnectionHandle, open: F) -> (opened: Result<
        Option<P::StreamId>,
        PollDriverError<P>,
    >) where F: FnOnce(&mut P::Connection, Dir) -> Option<P::StreamId>
        requires
            forall|state: &mut P::Connection|
                old(self)@.connections.contains_key(connection) && *state
                    == old(self)@.connections[connection]
                    ==> #[trigger] call_requires(open, (state, Dir::Uni)),
        ensures
            keeps_known(old(self)@, final(self)@),
            opened is Ok <==> old(self)@.connections.contains_key(connection),
            !old(self)@.connections.contains_key(connection) ==> {
                &&& opened == Err::<Option<P::StreamId>, _>(
                    PollDriverError::<P>::UnknownConnection,
                )
                &&& final(self)@ == old(self)@
            },
            old(self)@.connections.contains_key(connection) ==> exists|
                state: &mut P::Connection,
                outcome: Option<P::StreamId>,
            | {
                &&& #[trigger] call_ensures(open, (state, Dir::Uni), outcome)
                &&& *state == old(self)@.connections[connection]
                &&& final(self)@ == (DriverState {
                    connections: old(self)@.connections.insert(connection, *final(state)),
                    ..old(self)@
                })
                &&& opened == Ok::<_, PollDriverError<P>>(outcome)
            },
    {
        self.open(connection, Dir::Uni, open)
    }

    /// Close a connection, if it is in the table. `close` does it.
    pub fn close<F>(
        &mut self,
        connection: ConnectionHandle,
        now: Instant,
        error_code: P::ErrorCode,
        reason: Bytes,
        close: F,
    ) where F: FnOnce(&mut P::Connection, Instant, P::ErrorCode, Bytes)
        requires
            forall|state: &mut P::Connection|
                old(self)@.connections.contains_key(connection) && *state
                    == old(self)@.connections[connection]
                    ==> #[trigger] call_requires(close, (state, now, error_code, reason)),
        ensures
            keeps_known(old(self)@, final(self)@),
            !old(self)@.connections.contains_key(connection) ==> final(self)@ == old(self)@,
            old(self)@.connections.contains_key(connection) ==> exists|state: &mut P::Connection| {
                &&& #[trigger] call_ensures(close, (state, now, error_code, reason), ())
                &&& *state == old(self)@.connections[connection]
                &&& final(self)@ == (DriverState {
                    connections: old(self)@.connections.insert(connection, *final(state)),
                    ..old(self)@
                })
            },
    {
        match self.lookup(connection) {
            Ok(state) => close(state, now, error_code, reason),
            Err(_) => {},
        }
    }

    /// Get the next timer deadline across all connections. `deadline` asks a
    /// connection for its own.
    ///
    /// Returns `None` if no timers are active. The caller should arrange to
    /// start a drive cycle at or after this instant.
    pub fn poll_timeout<F>(&mut self, deadline: F) -> (next: Option<Instant>) where
        F: Fn(&mut P::Connection) -> Option<Instant>,

        requires
            forall|connection: ConnectionHandle, state: &mut P::Connection|
                #![trigger old(self)@.connections.contains_key(connection), call_requires(
                    deadline,
                    (state,),
                )]
                old(self)@.connections.contains_key(connection) && *state
                    == old(self)@.connections[connection] ==> call_requires(deadline, (state,)),
        ensures
            keeps_known(old(self)@, final(self)@),
            final(self)@.connections.dom() == old(self)@.connections.dom(),
            final(self)@ == (DriverState { connections: final(self)@.connections, ..old(self)@ }),
            exists|deadlines: Map<ConnectionHandle, Option<Instant>>| {
                &&& deadlines.dom() == old(self)@.connections.dom()
                &&& #[trigger] is_earliest(next, deadlines)
                &&& next is Some ==> exists|connection: ConnectionHandle| #[trigger]
                    deadlines.contains_key(connection) && deadlines[connection] == next
                &&& forall|connection: ConnectionHandle| #[trigger]
                    deadlines.contains_key(connection) && deadlines[connection] is Some ==> next
                        is Some && next->0 <= deadlines[connection]->0
                &&& forall|connection: ConnectionHandle| #[trigger]
                    deadlines.contains_key(connection) ==> exists|state: &mut P::Connection| {
                        &&& #[trigger] call_ensures(deadline, (state,), deadlines[connection])
                        &&& *state == old(self)@.connections[connection]
                        &&& *final(state) == final(self)@.connections[connection]
                    }
            },
    {
        let mut pending = self.handles();
        let mut next: Option<Instant> = None;
        let ghost start = self@;
        let ghost mut deadlines: Map<ConnectionHandle, Option<Instant>> = Map::empty();
        proof {
            assert(pending@.to_set() == start.connections.dom());
        }
        while pending.len() > 0
            invariant
                forall|connection: ConnectionHandle, state: &mut P::Connection|
                    #![trigger start.connections.contains_key(connection), call_requires(
                        deadline,
                        (state,),
                    )]
                    start.connections.contains_key(connection) && *state
                        == start.connections[connection] ==> call_requires(deadline, (state,)),
                pending@.no_duplicates(),
                self@ == (DriverState { connections: self@.connections, ..start }),
                self@.connections.dom() == start.connections.dom(),
                forall|connection: ConnectionHandle| #[trigger]
                    pending@.contains(connection) ==> start.connections.contains_key(connection)
                        && self@.connections[connection] == start.connections[connection],
                forall|connection: ConnectionHandle| #[trigger]
                    deadlines.contains_key(connection) <==> start.connections.contains_key(
                        connection,
                    ) && !pending@.contains(connection),
                is_earliest(next, deadlines),
                forall|connection: ConnectionHandle| #[trigger]
                    deadlines.contains_key(connection) ==> exists|state: &mut P::Connection| {
                        &&& #[trigger] call_ensures(deadline, (state,), deadlines[connection])
                        &&& *state == start.connections[connection]
                        &&& *final(state) == self@.connections[connection]
                    },
            decreases pending@.len(),
        {
            let ghost before = pending@;
            let ghost known = deadlines;
            let ghost earlier = next;
            let ghost table = self@.connections;
            match pending.pop_front() {
                Some(connection) => {
                    proof {
                        lemma_first_of_pending(before);
                    }
                    match self.lookup(connection) {
                        Ok(state) => {
                            let answer = deadline(state);
                            match (next, answer) {
                                (Some(earliest), Some(instant)) => if instant < earliest {
                                    next = answer;
                                },
                                (None, Some(instant)) => next = answer,
                                (_, None) => {},
                            }
                            proof {
                                deadlines = deadlines.insert(connection, answer);
                                lemma_earliest_with(earlier, known, connection, answer, next);
                                assert forall|other: ConnectionHandle| #[trigger]
                                    deadlines.contains_key(other) && other != connection implies {
                                    &&& known.contains_key(other)
                                    &&& deadlines[other] == known[other]
                                    &&& self@.connections[other] == table[other]
                                } by {}
                            }
                        },
                        Err(_) => {},
                    }
                },
                None => {},
            }
        }
        next
    }

    /// Get connection statistics, if the connection is in the table. `stats`
    /// reads them.
    pub fn connection_stats<F>(&mut self, connection: ConnectionHandle, stats: F) -> (found: Option<
        P::Stats,
    >) where F: FnOnce(&mut P::Connection) -> P::Stats
        requires
            forall|state: &mut P::Connection|
                old(self)@.connections.contains_key(connection) && *state
                    == old(self)@.connections[connection]
                    ==> #[trigger] call_requires(stats, (state,)),
        ensures
            keeps_known(old(self)@, final(self)@),
            !old(self)@.connections.contains_key(connection) ==> {
                &&& found == None::<P::Stats>
                &&& final(self)@ == old(self)@
            },
            old(self)@.connections.contains_key(connection) ==> exists|
                state: &mut P::Connection,
                outcome: P::Stats,
            | {
                &&& #[trigger] call_ensures(stats, (state,), outcome)
                &&& *state == old(self)@.connections[connection]
                &&& final(self)@ == (DriverState {
                    connections: old(self)@.connections.insert(connection, *final(state)),
                    ..old(self)@
                })
                &&& found == Some(outcome)
            },
    {
        match self.lookup(connection) {
            Ok(state) => Some(stats(state)),
            Err(_) => None,
        }
    }

    /// Act on what the endpoint made of a connection attempt: an accepted
    /// connection goes into the table, and its handle is returned; a refusal
    /// gives its reason, and the response to it that is to be sent.
    pub fn accepted(
        &mut self,
        outcome: Result<(ConnectionHandle, P::Connection), AcceptError<P>>,
    ) -> (accepted: (
        Result<ConnectionHandle, P::ConnectionError>,
        Option<Transmit<P::Address>>,
    ))
        ensures
            keeps_known(old(self)@, final(self)@),
            accepted == accept_reply(outcome),
            outcome matches Ok((connection, _)) ==> accepted.0 == Ok::<_, P::ConnectionError>(
                connection,
            ) && accepted.1 is None,
            outcome matches Err(error) ==> accepted.0 == Err::<ConnectionHandle, _>(error.cause)
                && accepted.1 == error.response,
            final(self)@ == (DriverState {
                connections: with_registered(old(self)@.connections, outcome),
                ..old(self)@
            }),
    {
        match outcome {
            Ok((connection, state)) => {
                self.register(connection, state);
                (Ok(connection), None)
            },
            Err(error) => (Err(error.cause), error.response),
        }
    }

    /// Accept an incoming connection.
    ///
    /// `accept` lets the endpoint accept it, and may write a response to the
    /// buffer it is given. Returns the connection handle on success, and a
    /// datagram to send from the response buffer where there is one; a failure
    /// to send it is ignored.
    pub fn accept<F>(
        &mut self,
        incoming: P::Incoming,
        now: Instant,
        server_config: Option<P::ServerConfig>,
        accept: F,
    ) -> (accepted: (
        Result<ConnectionHandle, P::ConnectionError>,
        Option<Transmit<P::Address>>,
    )) where
        F: FnOnce(P::Incoming, Instant, &mut Vec<u8>, Option<P::ServerConfig>) -> Result<
            (ConnectionHandle, P::Connection),
            AcceptError<P>,
        >,

        requires
            forall|response_buf: &mut Vec<u8>|
                response_buf@ == old(self)@.response_buf ==> #[trigger] call_requires(
                    accept,
                    (incoming, now, response_buf, server_config),
                ),
        ensures
            keeps_known(old(self)@, final(self)@),
            exists|
                response_buf: &mut Vec<u8>,
                outcome: Result<(ConnectionHandle, P::Connection), AcceptError<P>>,
            | {
                &&& #[trigger] call_ensures(
                    accept,
                    (incoming, now, response_buf, server_config),
                    outcome,
                )
                &&& response_buf@ == old(self)@.response_buf
                &&& accepted == accept_reply(outcome)
                &&& final(self)@ == (DriverState {
                    connections: with_registered(old(self)@.connections, outcome),
                    response_buf: final(response_buf)@,
                    ..old(self)@
                })
            },
    {
        let outcome = accept(incoming, now, self.response_buf(), server_config);
        self.accepted(outcome)
    }

    /// Act on what became of an attempt to connect: the connection goes into the
    /// table, and its handle is returned.
    pub fn connected(
        &mut self,
        outcome: Result<(ConnectionHandle, P::Connection), P::ConnectError>,
    ) -> (connected: Result<ConnectionHandle, P::ConnectError>)
        ensures
            keeps_known(old(self)@, final(self)@),
            connected == connect_reply::<P>(outcome),
            outcome matches Ok((connection, _)) ==> connected == Ok::<_, P::ConnectError>(
                connection,
            ),
            outcome matches Err(error) ==> connected == Err::<ConnectionHandle, _>(error),
            final(self)@ == (DriverState {
                connections: with_registered(old(self)@.connections, outcome),
                ..old(self)@
            }),
    {
        match outcome {
            Ok((connection, state)) => {
                self.register(connection, state);
                Ok(connection)
            },
            Err(error) => Err(error),
        }
    }

    /// Initiate an outgoing connection. `connect` lets the endpoint do it.
    pub fn connect<F>(
        &mut self,
        now: Instant,
        config: P::ClientConfig,
        remote: P::Address,
        server_name: &str,
        connect: F,
    ) -> (connected: Result<ConnectionHandle, P::ConnectError>) where
        F: FnOnce(Instant, P::ClientConfig, P::Address, &str) -> Result<
            (ConnectionHandle, P::Connection),
            P::ConnectError,
        >,

        requires
            call_requires(connect, (now, config, remote, server_name)),
        ensures
            keeps_known(old(self)@, final(self)@),
            exists|outcome: Result<(ConnectionHandle, P::Connection), P::ConnectError>| {
                &&& #[trigger] call_ensures(connect, (now, config, remote, server_name), outcome)
                &&& connected == connect_reply::<P>(outcome)
                &&& final(self)@ == (DriverState {
                    connections: with_registered(old(self)@.connections, outcome),
                    ..old(self)@
                })
            },
    {
        let outcome = connect(now, config, remote, server_name);
        self.connected(outcome)
    }
}

} // verus!
