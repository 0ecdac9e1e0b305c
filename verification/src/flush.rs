//! The flush cycle as a state machine: its inputs, its actions, and the step
//! from one state to the next.
//!
//! A flush visits every connection and sends what it has to send.

use vstd::prelude::*;

use crate::types::{ConnectionHandle, Instant, Protocol, Transmit};

verus! {

/// Maximum outgoing datagrams per connection per flush.
pub const SEND_BATCH_SIZE: usize = 64;

/// What became of the last action of a flush.
pub enum FlushInput<P: Protocol> {
    /// The flush starts, or goes on.
    Ready,
    /// Answers [`FlushAction::PollTransmit`]: the next datagram of the
    /// connection. Its bytes are at the front of the send buffer.
    Transmit(Option<Transmit<P::Address>>),
    /// Answers [`FlushAction::Send`]: the datagram was sent.
    Sent,
    /// Answers [`FlushAction::Send`]: the socket takes nothing more for now.
    WouldBlock,
    /// Answers [`FlushAction::Send`]: the socket failed.
    SendFailed(P::IoError),
}

/// What has to be done next in a flush.
pub enum FlushAction<P: Protocol> {
    /// Ask a connection to write its next datagram to the send buffer.
    PollTransmit {
        /// The connection.
        connection: ConnectionHandle,
        /// The time of the flush.
        now: Instant,
        /// How many datagrams the connection may write at most.
        max_datagrams: usize,
    },
    /// Send a datagram from the send buffer.
    Send(Transmit<P::Address>),
    /// Nothing has to be done: go on.
    Continue,
    /// The flush is over, with the number of datagrams sent or the error that
    /// stopped it.
    Finish(Result<usize, P::IoError>),
    /// The input does not answer the last action; nothing changed.
    Unexpected,
}

/// Where a flush stands.
#[derive(Clone, Copy, Debug, PartialEq, Eq, Structural)]
pub enum FlushPhase {
    /// About to start.
    Start,
    /// About to visit the next connection.
    Next,
    /// Waiting for a datagram of a connection.
    Polling,
    /// Waiting for a datagram to be sent.
    Sending,
    /// Over.
    Finished,
}

/// The state of a flush.
pub struct FlushState {
    /// The time of the flush.
    pub now: Instant,
    /// Where it stands.
    pub phase: FlushPhase,
    /// The connection being visited.
    pub current: ConnectionHandle,
    /// How many more datagrams that connection may send.
    pub left: nat,
    /// The connections yet to visit, in order.
    pub pending: Seq<ConnectionHandle>,
    /// How many datagrams have been sent.
    pub total: nat,
}

/// The state that a flush starts from.
pub open spec fn flush_start(now: Instant) -> FlushState {
    FlushState {
        now,
        phase: FlushPhase::Start,
        current: 0,
        left: 0,
        pending: Seq::empty(),
        total: 0,
    }
}

/// The action that asks the connection being visited for a datagram.
pub open spec fn poll_current<P: Protocol>(flush: FlushState) -> FlushAction<P> {
    FlushAction::PollTransmit {
        connection: flush.current,
        now: flush.now,
        max_datagrams: SEND_BATCH_SIZE,
    }
}

/// The steps of a visit: the connection is asked for a datagram, and that is
/// sent, until it has none, until [`SEND_BATCH_SIZE`] are sent, or until the
/// socket would block. A socket failure ends the flush.
pub open spec fn visit_step<P: Protocol>(flush: FlushState, input: FlushInput<P>) -> (
    FlushState,
    FlushAction<P>,
) {
    let next = FlushState { phase: FlushPhase::Next, ..flush };
    match (flush.phase, input) {
        (FlushPhase::Polling, FlushInput::Transmit(None)) => (next, FlushAction::Continue),
        (FlushPhase::Polling, FlushInput::Transmit(Some(transmit))) => (
            FlushState { phase: FlushPhase::Sending, ..flush },
            FlushAction::Send(transmit),
        ),
        (FlushPhase::Sending, FlushInput::Sent) => if flush.left <= 1 {
            (FlushState { left: 0, total: flush.total + 1, ..next }, FlushAction::Continue)
        } else {
            let polled = FlushState {
                phase: FlushPhase::Polling,
                left: (flush.left - 1) as nat,
                total: flush.total + 1,
                ..flush
            };
            (polled, poll_current(polled))
        },
        (FlushPhase::Sending, FlushInput::WouldBlock) => (next, FlushAction::Continue),
        (FlushPhase::Sending, FlushInput::SendFailed(error)) => (
            FlushState { phase: FlushPhase::Finished, ..flush },
            FlushAction::Finish(Err(error)),
        ),
        _ => (flush, FlushAction::Unexpected),
    }
}

/// The step of a flush on `input`. `order` is the order in which the table is
/// walked, where the step begins the walk.
pub open spec fn flush_step<P: Protocol>(
    handles: Set<ConnectionHandle>,
    flush: FlushState,
    input: FlushInput<P>,
    order: Seq<ConnectionHandle>,
) -> (FlushState, FlushAction<P>) {
    match (flush.phase, input) {
        (FlushPhase::Start, FlushInput::Ready) => (
            FlushState { phase: FlushPhase::Next, pending: order, ..flush },
            FlushAction::Continue,
        ),
        (FlushPhase::Next, FlushInput::Ready) => if flush.pending.len() == 0 {
            (
                FlushState { phase: FlushPhase::Finished, ..flush },
                FlushAction::Finish(Ok(flush.total as usize)),
            )
        } else {
            let rest = FlushState { pending: flush.pending.drop_first(), ..flush };
            if handles.contains(flush.pending.first()) {
                let polled = FlushState {
                    phase: FlushPhase::Polling,
                    current: flush.pending.first(),
                    left: SEND_BATCH_SIZE as nat,
                    ..rest
                };
                (polled, poll_current(polled))
            } else {
                (rest, FlushAction::Continue)
            }
        },
        _ => visit_step(flush, input),
    }
}

/// The step out of `flush` on `input` begins the walk through the table.
pub open spec fn flush_walks<P: Protocol>(flush: FlushState, input: FlushInput<P>) -> bool {
    flush.phase is Start && input is Ready
}

} // verus!
