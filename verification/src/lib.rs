//! A synchronous, poll-based driver for a QUIC endpoint and its connections.
//!
//! The driver owns the table of connections and the datagram buffers, and it
//! takes every decision: how many datagrams to receive, which connection an
//! event belongs to, which timers are due, which connections are gone, what is
//! reported to the application and when a flush stops. It performs no I/O and
//! does not speak the protocol itself. A cycle (see [`PollDriver::drive`] and
//! [`PollDriver::flush_transmits`]) is a state machine: each call takes what
//! the last action led to and returns the next action to perform.

pub mod buffer;
pub mod drive;
pub mod drive_laws;
pub mod driver;
pub mod flush;
pub mod flush_laws;
pub mod operations;
pub mod sequence_laws;
pub mod table_laws;
pub mod types;

pub use drive::{DriveAction, DriveInput, RECV_BATCH_SIZE, RECV_BUF_SIZE};
pub use driver::{DriveCycle, FlushCycle, PollDriver};
pub use flush::{FlushAction, FlushInput, SEND_BATCH_SIZE};
pub use types::{
    AcceptError, ClosedStream, ConnectionHandle, DatagramEvent, Dir, EndpointMessage, Event,
    Instant, PollDriverError, PollEvent, Protocol, Transmit,
};
