//! The drive cycle as a state machine: its inputs, its actions, and the step
//! from one state to the next.
//!
//! A cycle receives datagrams and hands them to the endpoint, lets due timers
//! fire, carries the messages of the connections to the endpoint and back, and
//! collects what the connections announce, in this order.

use vstd::prelude::*;

use crate::buffer::resized;
use crate::types::{
    reported, ConnectionHandle, DatagramEvent, EndpointMessage, EventOf, Instant, PollEvent,
    PollEventOf, Protocol, Transmit,
};

verus! {

/// Maximum UDP datagrams to receive per drive cycle.
pub const RECV_BATCH_SIZE: usize = 64;

/// The length of the receive buffer: no UDP datagram is longer.
pub const RECV_BUF_SIZE: usize = 65536;

/// What became of the last action of a drive cycle.
pub enum DriveInput<P: Protocol> {
    /// The cycle starts, or the last action is done and gave no answer.
    Ready,
    /// Answers [`DriveAction::Receive`]: the first `len` bytes of the receive
    /// buffer are a datagram. `local` is absent where the socket could not tell
    /// its own address.
    Datagram {
        /// The length of the datagram.
        len: usize,
        /// Where it came from.
        source: P::Address,
        /// The address of the socket that it arrived at.
        local: Option<P::LocalAddress>,
    },
    /// Answers [`DriveAction::Receive`]: no datagram is waiting.
    WouldBlock,
    /// Answers [`DriveAction::Receive`]: the socket failed.
    ReceiveFailed,
    /// Answers [`DriveAction::Handle`]: what the endpoint made of the datagram.
    Handled(Option<DatagramEvent<P>>),
    /// Answers [`DriveAction::PollTimeout`]: when the connection's next timer is due.
    Deadline(Option<Instant>),
    /// Answers [`DriveAction::PollEndpointEvent`]: the next message to the endpoint.
    EndpointEvent(Option<EndpointMessage<P::EndpointEvent>>),
    /// Answers [`DriveAction::HandleEndpointEvent`]: the endpoint's reply.
    Reply(Option<P::ConnectionEvent>),
    /// Answers [`DriveAction::Poll`]: the connection's next announcement.
    Event(Option<EventOf<P>>),
}

/// What has to be done next in a drive cycle. `D` is the type of a datagram.
pub enum DriveAction<P: Protocol, D> {
    /// Receive a datagram from the socket into the receive buffer.
    Receive,
    /// Hand a datagram to the endpoint, with the response buffer.
    Handle {
        /// The time of the cycle.
        now: Instant,
        /// The datagram.
        data: D,
        /// Where it came from.
        source: P::Address,
        /// The address that it arrived at.
        local: P::LocalAddress,
    },
    /// Send a datagram from the response buffer. A failure to do so is ignored.
    Respond(Transmit<P::Address>),
    /// Hand an event to a connection.
    Deliver {
        /// The connection.
        connection: ConnectionHandle,
        /// The event.
        event: P::ConnectionEvent,
    },
    /// Ask a connection when its next timer is due.
    PollTimeout {
        /// The connection.
        connection: ConnectionHandle,
    },
    /// Let the due timers of a connection fire.
    HandleTimeout {
        /// The connection.
        connection: ConnectionHandle,
        /// The time of the cycle.
        now: Instant,
    },
    /// Ask a connection for its next message to the endpoint.
    PollEndpointEvent {
        /// The connection.
        connection: ConnectionHandle,
    },
    /// Hand a message of a connection to the endpoint.
    HandleEndpointEvent {
        /// The connection that it comes from.
        connection: ConnectionHandle,
        /// The message.
        message: P::EndpointEvent,
    },
    /// Ask a connection for its next announcement.
    Poll {
        /// The connection.
        connection: ConnectionHandle,
    },
    /// Nothing has to be done: go on.
    Continue,
    /// The cycle is over.
    Finish,
    /// The input does not answer the last action; nothing changed.
    Unexpected,
}

/// Where a drive cycle stands.
#[derive(Clone, Copy, Debug, PartialEq, Eq, Structural)]
pub enum Phase {
    /// About to receive a datagram.
    Receive,
    /// Waiting for a datagram.
    Receiving,
    /// Waiting for what the endpoint makes of a datagram.
    Handling,
    /// About to look at the timers of the next connection.
    Timers,
    /// Waiting for the deadline of a connection.
    Deadline,
    /// About to gather the messages of the next connection to the endpoint.
    Gather,
    /// Waiting for a message of a connection to the endpoint.
    Gathering,
    /// About to route the next gathered message.
    Route,
    /// Waiting for the endpoint's reply to a message.
    Replying,
    /// Waiting for the reply to be delivered.
    Delivering,
    /// About to collect the announcements of the next connection.
    Collect,
    /// Waiting for an announcement of a connection.
    Polling,
    /// Over.
    Finished,
}

/// The state of a drive cycle.
pub struct CycleState<P: Protocol> {
    /// The time of the cycle.
    pub now: Instant,
    /// Where it stands.
    pub phase: Phase,
    /// How many more datagrams may be received.
    pub left: nat,
    /// The connection that the last action concerned.
    pub current: ConnectionHandle,
    /// Whether the message being routed says that its connection is drained.
    pub drained: bool,
    /// The connections that the phase has yet to visit, in order.
    pub pending: Seq<ConnectionHandle>,
    /// The messages gathered and not yet routed, with the connections that they
    /// come from, in order.
    pub routed: Seq<(ConnectionHandle, EndpointMessage<P::EndpointEvent>)>,
    /// What is to be reported.
    pub events: Seq<PollEventOf<P>>,
}

/// What a step leads to.
pub struct DriveStep<P: Protocol> {
    /// The connections in the table.
    pub handles: Set<ConnectionHandle>,
    /// The contents of the receive buffer.
    pub recv_buf: Seq<u8>,
    /// The state of the cycle.
    pub cycle: CycleState<P>,
    /// The action to perform.
    pub action: DriveAction<P, Seq<u8>>,
}

/// The state that a cycle starts from.
pub open spec fn cycle_start<P: Protocol>(now: Instant) -> CycleState<P> {
    CycleState {
        now,
        phase: Phase::Receive,
        left: RECV_BATCH_SIZE as nat,
        current: 0,
        drained: false,
        pending: Seq::empty(),
        routed: Seq::empty(),
        events: Seq::empty(),
    }
}

/// `order` names each of the connections in `handles` once, and no other.
pub open spec fn lists(order: Seq<ConnectionHandle>, handles: Set<ConnectionHandle>) -> bool {
    &&& order.no_duplicates()
    &&& order.to_set() == handles
}

/// What is left of a walk that names nothing twice, without its first connection.
pub(crate) proof fn lemma_first_of_pending(pending: Seq<ConnectionHandle>)
    requires
        pending.no_duplicates(),
        pending.len() > 0,
    ensures
        pending.contains(pending.first()),
        pending.drop_first().no_duplicates(),
        forall|connection: ConnectionHandle| #[trigger]
            pending.drop_first().contains(connection) <==> pending.contains(connection)
                && connection != pending.first(),
{
    let rest = pending.drop_first();
    assert(pending[0] == pending.first());
    assert forall|connection: ConnectionHandle| #[trigger] rest.contains(connection) implies {
        &&& pending.contains(connection)
        &&& connection != pending.first()
    } by {
        let at = rest.index_of(connection);
        assert(pending[at + 1] == connection);
    }
    assert forall|connection: ConnectionHandle|
        pending.contains(connection) && connection
            != pending.first() implies #[trigger] rest.contains(connection) by {
        let at = pending.index_of(connection);
        assert(rest[at - 1] == connection);
    }
}

/// What a sequence of connections names, with one more at its end.
pub(crate) proof fn lemma_contains_push(
    seq: Seq<ConnectionHandle>,
    last: ConnectionHandle,
    connection: ConnectionHandle,
)
    ensures
        seq.push(last).contains(connection) <==> seq.contains(connection) || connection == last,
{
    let more = seq.push(last);
    assert(more[seq.len() as int] == last);
    if seq.contains(connection) {
        assert(more[seq.index_of(connection)] == connection);
    }
    if more.contains(connection) && connection != last {
        assert(seq[more.index_of(connection)] == connection);
    }
}

/// The step out of `cycle` on `input` begins a walk through the table.
pub open spec fn walks<P: Protocol>(cycle: CycleState<P>, input: DriveInput<P>) -> bool {
    &&& input is Ready
    &&& match cycle.phase {
        Phase::Receive => cycle.left == 0,
        Phase::Timers => cycle.pending.len() == 0,
        Phase::Route => cycle.routed.len() == 0,
        _ => false,
    }
}

/// `cycle` in another phase.
pub open spec fn in_phase<P: Protocol>(cycle: CycleState<P>, phase: Phase) -> CycleState<P> {
    CycleState { phase, ..cycle }
}

/// `cycle` in a phase that has the connections of `order` to visit.
pub open spec fn walk_in<P: Protocol>(
    cycle: CycleState<P>,
    phase: Phase,
    order: Seq<ConnectionHandle>,
) -> CycleState<P> {
    CycleState { phase, pending: order, ..cycle }
}

/// `cycle` in a phase that concerns the next connection to visit.
pub open spec fn visit_in<P: Protocol>(cycle: CycleState<P>, phase: Phase) -> CycleState<P> {
    CycleState {
        phase,
        current: cycle.pending.first(),
        pending: cycle.pending.drop_first(),
        ..cycle
    }
}

/// The steps of the first stage: up to [`RECV_BATCH_SIZE`] datagrams are
/// received, each into a buffer of [`RECV_BUF_SIZE`] bytes. The stage ends
/// early where none is waiting or the socket fails. A datagram whose local
/// address is unknown is passed over. Any other goes to the endpoint: a
/// connection attempt is reported, an event goes to its connection if that is in
/// the table, a response is sent.
pub open spec fn receive_step<P: Protocol>(
    handles: Set<ConnectionHandle>,
    recv_buf: Seq<u8>,
    cycle: CycleState<P>,
    input: DriveInput<P>,
    order: Seq<ConnectionHandle>,
) -> (Seq<u8>, CycleState<P>, DriveAction<P, Seq<u8>>) {
    let next = in_phase(cycle, Phase::Receive);
    match (cycle.phase, input) {
        (Phase::Receive, DriveInput::Ready) => if cycle.left == 0 {
            (recv_buf, walk_in(cycle, Phase::Timers, order), DriveAction::Continue)
        } else {
            (
                resized(recv_buf, RECV_BUF_SIZE as nat),
                CycleState { phase: Phase::Receiving, left: (cycle.left - 1) as nat, ..cycle },
                DriveAction::Receive,
            )
        },
        (Phase::Receiving, DriveInput::WouldBlock) => (
            recv_buf,
            CycleState { left: 0, ..next },
            DriveAction::Continue,
        ),
        (Phase::Receiving, DriveInput::ReceiveFailed) => (
            recv_buf,
            CycleState { left: 0, ..next },
            DriveAction::Continue,
        ),
        (Phase::Receiving, DriveInput::Datagram { len, source, local }) => match local {
            None => (recv_buf, next, DriveAction::Continue),
            Some(local) => (
                recv_buf.subrange(len as int, recv_buf.len() as int),
                in_phase(cycle, Phase::Handling),
                DriveAction::Handle {
                    now: cycle.now,
                    data: recv_buf.subrange(0, len as int),
                    source,
                    local,
                },
            ),
        },
        (Phase::Handling, DriveInput::Handled(handled)) => match handled {
            None => (recv_buf, next, DriveAction::Continue),
            Some(DatagramEvent::NewConnection(incoming)) => (
                recv_buf,
                CycleState {
                    events: cycle.events.push(PollEvent::NewConnection(incoming)),
                    ..next
                },
                DriveAction::Continue,
            ),
            Some(DatagramEvent::ConnectionEvent(connection, event)) => if handles.contains(
                connection,
            ) {
                (recv_buf, next, DriveAction::Deliver { connection, event })
            } else {
                (recv_buf, next, DriveAction::Continue)
            },
            Some(DatagramEvent::Response(transmit)) => (
                recv_buf,
                next,
                DriveAction::Respond(transmit),
            ),
        },
        _ => (recv_buf, cycle, DriveAction::Unexpected),
    }
}

/// The steps of the second stage: each connection is asked for its deadline,
/// and its timers fire where `now` has reached it.
pub open spec fn timers_step<P: Protocol>(
    cycle: CycleState<P>,
    input: DriveInput<P>,
    order: Seq<ConnectionHandle>,
) -> (CycleState<P>, DriveAction<P, Seq<u8>>) {
    match (cycle.phase, input) {
        (Phase::Timers, DriveInput::Ready) => if cycle.pending.len() == 0 {
            (walk_in(cycle, Phase::Gather, order), DriveAction::Continue)
        } else {
            (
                visit_in(cycle, Phase::Deadline),
                DriveAction::PollTimeout { connection: cycle.pending.first() },
            )
        },
        (Phase::Deadline, DriveInput::Deadline(deadline)) => (
            in_phase(cycle, Phase::Timers),
            if is_due(deadline, cycle.now) {
                DriveAction::HandleTimeout { connection: cycle.current, now: cycle.now }
            } else {
                DriveAction::Continue
            },
        ),
        _ => (cycle, DriveAction::Unexpected),
    }
}

/// There is a deadline, and `now` has reached it.
pub open spec fn is_due(deadline: Option<Instant>, now: Instant) -> bool {
    deadline is Some && now >= deadline->0
}

/// The connections in the table once a message has been routed: without the
/// sender where it says that it is drained.
pub open spec fn settled<P: Protocol>(
    handles: Set<ConnectionHandle>,
    cycle: CycleState<P>,
) -> Set<ConnectionHandle> {
    if cycle.drained {
        handles.remove(cycle.current)
    } else {
        handles
    }
}

/// The steps of the third stage: the messages of all connections are gathered,
/// and then each is handed to the endpoint. The reply goes to the connection if
/// that is still in the table, and a connection that is drained leaves it.
pub open spec fn route_step<P: Protocol>(
    handles: Set<ConnectionHandle>,
    cycle: CycleState<P>,
    input: DriveInput<P>,
    order: Seq<ConnectionHandle>,
) -> (Set<ConnectionHandle>, CycleState<P>, DriveAction<P, Seq<u8>>) {
    match (cycle.phase, input) {
        (Phase::Gather, DriveInput::Ready) => if cycle.pending.len() == 0 {
            (handles, in_phase(cycle, Phase::Route), DriveAction::Continue)
        } else {
            (
                handles,
                visit_in(cycle, Phase::Gathering),
                DriveAction::PollEndpointEvent { connection: cycle.pending.first() },
            )
        },
        (Phase::Gathering, DriveInput::EndpointEvent(message)) => match message {
            None => (handles, in_phase(cycle, Phase::Gather), DriveAction::Continue),
            Some(message) => (
                handles,
                CycleState { routed: cycle.routed.push((cycle.current, message)), ..cycle },
                DriveAction::PollEndpointEvent { connection: cycle.current },
            ),
        },
        (Phase::Route, DriveInput::Ready) => if cycle.routed.len() == 0 {
            (handles, walk_in(cycle, Phase::Collect, order), DriveAction::Continue)
        } else {
            let (connection, message) = cycle.routed.first();
            (
                handles,
                CycleState {
                    phase: Phase::Replying,
                    current: connection,
                    drained: message.drained,
                    routed: cycle.routed.drop_first(),
                    ..cycle
                },
                DriveAction::HandleEndpointEvent { connection, message: message.event },
            )
        },
        (Phase::Replying, DriveInput::Reply(reply)) => match reply {
            Some(event) if handles.contains(cycle.current) => (
                handles,
                in_phase(cycle, Phase::Delivering),
                DriveAction::Deliver { connection: cycle.current, event },
            ),
            _ => (settled(handles, cycle), in_phase(cycle, Phase::Route), DriveAction::Continue),
        },
        (Phase::Delivering, DriveInput::Ready) => (
            settled(handles, cycle),
            in_phase(cycle, Phase::Route),
            DriveAction::Continue,
        ),
        _ => (handles, cycle, DriveAction::Unexpected),
    }
}

/// The steps of the last stage: each connection in the table is polled until it
/// has nothing more to announce, and what it announces is reported.
pub open spec fn collect_step<P: Protocol>(
    handles: Set<ConnectionHandle>,
    cycle: CycleState<P>,
    input: DriveInput<P>,
) -> (CycleState<P>, DriveAction<P, Seq<u8>>) {
    match (cycle.phase, input) {
        (Phase::Collect, DriveInput::Ready) => if cycle.pending.len() == 0 {
            (in_phase(cycle, Phase::Finished), DriveAction::Finish)
        } else if handles.contains(cycle.pending.first()) {
            (
                visit_in(cycle, Phase::Polling),
                DriveAction::Poll { connection: cycle.pending.first() },
            )
        } else {
            (
                CycleState { pending: cycle.pending.drop_first(), ..cycle },
                DriveAction::Continue,
            )
        },
        (Phase::Polling, DriveInput::Event(event)) => match event {
            None => (in_phase(cycle, Phase::Collect), DriveAction::Continue),
            Some(event) => (
                CycleState {
                    events: match reported(cycle.current, event) {
                        Some(told) => cycle.events.push(told),
                        None => cycle.events,
                    },
                    ..cycle
                },
                DriveAction::Poll { connection: cycle.current },
            ),
        },
        _ => (cycle, DriveAction::Unexpected),
    }
}

/// The step out of `cycle` on `input`. `order` is the order in which the table
/// is walked, where the step begins a walk.
pub open spec fn drive_step<P: Protocol>(
    handles: Set<ConnectionHandle>,
    recv_buf: Seq<u8>,
    cycle: CycleState<P>,
    input: DriveInput<P>,
    order: Seq<ConnectionHandle>,
) -> DriveStep<P> {
    match cycle.phase {
        Phase::Receive | Phase::Receiving | Phase::Handling => {
            let (recv_buf, cycle, action) = receive_step(handles, recv_buf, cycle, input, order);
            DriveStep { handles, recv_buf, cycle, action }
        },
        Phase::Timers | Phase::Deadline => {
            let (cycle, action) = timers_step(cycle, input, order);
            DriveStep { handles, recv_buf, cycle, action }
        },
        Phase::Gather | Phase::Gathering | Phase::Route | Phase::Replying | Phase::Delivering => {
            let (handles, cycle, action) = route_step(handles, cycle, input, order);
            DriveStep { handles, recv_buf, cycle, action }
        },
        Phase::Collect | Phase::Polling => {
            let (cycle, action) = collect_step(handles, cycle, input);
            DriveStep { handles, recv_buf, cycle, action }
        },
        Phase::Finished => DriveStep { handles, recv_buf, cycle, action: DriveAction::Unexpected },
    }
}

} // verus!
