//! The values that pass between the driver, the protocol and the application.

use vstd::prelude::*;

verus! {

/// Names a connection: the index that the endpoint has given it.
pub type ConnectionHandle = usize;

/// A point in time: nanoseconds since an origin that the caller keeps fixed,
/// negative before it.
pub type Instant = i128;

/// The types of a protocol implementation that the driver carries through
/// without looking inside.
pub trait Protocol: Sized {
    /// The state of one connection.
    type Connection;

    /// A connection attempt that nobody has accepted or refused yet.
    type Incoming;

    /// A message from the endpoint to a connection.
    type ConnectionEvent;

    /// A message from a connection to the endpoint.
    type EndpointEvent;

    /// The name of a stream within a connection.
    type StreamId;

    /// Why a connection was lost or refused.
    type ConnectionError;

    /// Why an outgoing connection could not be initiated.
    type ConnectError;

    /// How to treat one incoming connection, in place of the endpoint's own rule.
    type ServerConfig;

    /// How to set up an outgoing connection.
    type ClientConfig;

    /// The code that a connection is closed with.
    type ErrorCode;

    /// The address of a peer.
    type Address;

    /// The local address that a datagram arrived at.
    type LocalAddress;

    /// Statistics of a connection.
    type Stats;

    /// An I/O error of the socket.
    type IoError;

    /// Why reading from a stream failed.
    type ReadError;

    /// Why a read could not be started.
    type ReadableError;

    /// Why writing to a stream failed.
    type WriteError;

    /// Why a stream could not be finished.
    type FinishError;
}

/// The direction of a stream.
#[derive(Clone, Copy, Debug, PartialEq, Eq, Structural)]
pub enum Dir {
    /// Data flows in both directions.
    Bi,
    /// Data flows only from the stream's initiator.
    Uni,
}

/// An outgoing datagram: where it goes, and how many bytes of the buffer that
/// it was written to belong to it.
#[derive(Debug, PartialEq, Eq)]
pub struct Transmit<A> {
    /// The peer to send to.
    pub destination: A,
    /// The number of bytes to send, from the front of the buffer.
    pub size: usize,
}

/// What the endpoint makes of a received datagram.
pub enum DatagramEvent<P: Protocol> {
    /// A peer attempts to open a connection.
    NewConnection(P::Incoming),
    /// The datagram belongs to a connection, to which this event is addressed.
    ConnectionEvent(ConnectionHandle, P::ConnectionEvent),
    /// The datagram is answered at once; the answer is in the response buffer.
    Response(Transmit<P::Address>),
}

/// What a connection announces.
#[derive(Debug, PartialEq, Eq)]
pub enum Event<S, R> {
    /// The handshake completed.
    Connected,
    /// A stream has data to read.
    Readable(S),
    /// A stream takes more data.
    Writable(S),
    /// Streams of this direction may be opened.
    Available(Dir),
    /// The connection is lost, for this reason.
    ConnectionLost(R),
    /// An unreliable datagram arrived.
    DatagramReceived,
    /// Any other announcement.
    Other,
}

/// A message of a connection to the endpoint, and whether it says that the
/// connection is drained.
pub struct EndpointMessage<E> {
    /// The message itself.
    pub event: E,
    /// Whether the message says that the connection is drained.
    pub drained: bool,
}

/// Events produced by a drive cycle.
#[derive(Debug, PartialEq, Eq)]
pub enum PollEvent<I, S, R> {
    /// A new incoming connection attempt, to be accepted or dropped.
    NewConnection(I),
    /// The connection handshake completed.
    Connected {
        /// The connection handle.
        connection: ConnectionHandle,
    },
    /// A stream has data available to read.
    StreamReadable {
        /// The connection handle.
        connection: ConnectionHandle,
        /// The stream with available data.
        stream: S,
    },
    /// A stream is ready to accept more data.
    StreamWritable {
        /// The connection handle.
        connection: ConnectionHandle,
        /// The writable stream.
        stream: S,
    },
    /// New streams of the given direction may be opened.
    StreamsAvailable {
        /// The connection handle.
        connection: ConnectionHandle,
        /// Direction of available streams.
        dir: Dir,
    },
    /// A connection was lost.
    ConnectionLost {
        /// The connection handle.
        connection: ConnectionHandle,
        /// The reason for the loss.
        reason: R,
    },
    /// An unreliable datagram was received on a connection.
    DatagramReceived {
        /// The connection handle.
        connection: ConnectionHandle,
    },
}

/// The poll events of a protocol.
pub type PollEventOf<P> = PollEvent<
    <P as Protocol>::Incoming,
    <P as Protocol>::StreamId,
    <P as Protocol>::ConnectionError,
>;

/// The announcements of a protocol's connections.
pub type EventOf<P> = Event<<P as Protocol>::StreamId, <P as Protocol>::ConnectionError>;

/// What the application is told of an announcement of `connection`: nothing of
/// one that has no poll event.
pub open spec fn reported<I, S, R>(connection: ConnectionHandle, event: Event<S, R>) -> Option<
    PollEvent<I, S, R>,
> {
    match event {
        Event::Connected => Some(PollEvent::Connected { connection }),
        Event::Readable(stream) => Some(PollEvent::StreamReadable { connection, stream }),
        Event::Writable(stream) => Some(PollEvent::StreamWritable { connection, stream }),
        Event::Available(dir) => Some(PollEvent::StreamsAvailable { connection, dir }),
        Event::ConnectionLost(reason) => Some(PollEvent::ConnectionLost { connection, reason }),
        Event::DatagramReceived => Some(PollEvent::DatagramReceived { connection }),
        Event::Other => None,
    }
}

/// The poll event for an announcement of `connection`.
pub fn report<I, S, R>(connection: ConnectionHandle, event: Event<S, R>) -> (told: Option<
    PollEvent<I, S, R>,
>)
    ensures
        told == reported::<I, S, R>(connection, event),
        event is Other <==> told is None,
        event is Connected ==> told == Some(PollEvent::<I, S, R>::Connected { connection }),
        event matches Event::Readable(stream) ==> told == Some(
            PollEvent::<I, S, R>::StreamReadable { connection, stream },
        ),
        event matches Event::Writable(stream) ==> told == Some(
            PollEvent::<I, S, R>::StreamWritable { connection, stream },
        ),
        event matches Event::Available(dir) ==> told == Some(
            PollEvent::<I, S, R>::StreamsAvailable { connection, dir },
        ),
        event matches Event::ConnectionLost(reason) ==> told == Some(
            PollEvent::<I, S, R>::ConnectionLost { connection, reason },
        ),
        event is DatagramReceived ==> told == Some(
            PollEvent::<I, S, R>::DatagramReceived { connection },
        ),
{
    match event {
        Event::Connected => Some(PollEvent::Connected { connection }),
        Event::Readable(stream) => Some(PollEvent::StreamReadable { connection, stream }),
        Event::Writable(stream) => Some(PollEvent::StreamWritable { connection, stream }),
        Event::Available(dir) => Some(PollEvent::StreamsAvailable { connection, dir }),
        Event::ConnectionLost(reason) => Some(PollEvent::ConnectionLost { connection, reason }),
        Event::DatagramReceived => Some(PollEvent::DatagramReceived { connection }),
        Event::Other => None,
    }
}

/// Errors of the driver's operations on a connection.
pub enum PollDriverError<P: Protocol> {
    /// I/O error from the UDP socket.
    Io(P::IoError),
    /// The specified connection does not exist.
    UnknownConnection,
    /// Stream read error from the protocol layer.
    Read(P::ReadError),
    /// Stream read could not be started.
    Readable(P::ReadableError),
    /// Stream write error.
    Write(P::WriteError),
    /// Stream finish error.
    Finish(P::FinishError),
    /// Stream was closed.
    ClosedStream,
}

/// The protocol's word that a stream is closed.
#[derive(Clone, Copy, Debug, PartialEq, Eq, Structural)]
pub struct ClosedStream;

impl<P: Protocol> From<ClosedStream> for PollDriverError<P> {
    fn from(closed: ClosedStream) -> (error: Self) {
        PollDriverError::ClosedStream
    }
}

impl<P: Protocol> vstd::std_specs::convert::FromSpecImpl<ClosedStream> for PollDriverError<P> {
    open spec fn obeys_from_spec() -> bool {
        true
    }

    open spec fn from_spec(closed: ClosedStream) -> Self {
        PollDriverError::ClosedStream
    }
}

/// Why an incoming connection was not accepted, and what to answer.
pub struct AcceptError<P: Protocol> {
    /// The reason.
    pub cause: P::ConnectionError,
    /// The answer, if there is one; its bytes are in the response buffer.
    pub response: Option<Transmit<P::Address>>,
}

impl<A> Transmit<A> {
    /// The bytes to send: the first `size` of the buffer.
    pub fn payload<'a>(&self, buffer: &'a [u8]) -> (data: &'a [u8])
        requires
            self.size <= buffer@.len(),
        ensures
            data@ == buffer@.subrange(0, self.size as int),
    {
        vstd::slice::slice_subrange(buffer, 0, self.size)
    }
}

} // verus!
