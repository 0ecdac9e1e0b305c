//! The driver: the table of connections, the buffers, and the two cycles.

use bytes::BytesMut;
use std::collections::hash_map::Entry;
use std::collections::HashMap;
use std::collections::VecDeque;
use vstd::prelude::*;
use vstd::std_specs::iter::IteratorSpec;

use crate::buffer::{buffer_bytes, buffer_slice, resized};
use crate::drive::{
    collect_step, cycle_start, drive_step, lists, receive_step, route_step, timers_step, walks,
    CycleState, DriveAction, DriveInput, DriveStep, Phase, RECV_BATCH_SIZE, RECV_BUF_SIZE,
};
use crate::flush::{
    flush_start, flush_step, flush_walks, visit_step, FlushAction, FlushInput, FlushPhase,
    FlushState, SEND_BATCH_SIZE,
};
use crate::types::{
    report, ConnectionHandle, DatagramEvent, EndpointMessage, Instant, PollDriverError, PollEvent,
    PollEventOf, Protocol,
};

verus! {

/// A synchronous, poll-based driver for an endpoint and its connections.
pub struct PollDriver<P: Protocol> {
    connections: HashMap<ConnectionHandle, P::Connection>,
    recv_buf: BytesMut,
    send_buf: Vec<u8>,
    response_buf: Vec<u8>,
}

/// What a driver holds.
pub struct DriverState<P: Protocol> {
    /// The connections, by their handles.
    pub connections: Map<ConnectionHandle, P::Connection>,
    /// The receive buffer.
    pub recv_buf: Seq<u8>,
    /// The send buffer.
    pub send_buf: Seq<u8>,
    /// The response buffer.
    pub response_buf: Seq<u8>,
}

/// Every connection that is in the table before is in it after.
pub open spec fn keeps_known<P: Protocol>(before: DriverState<P>, after: DriverState<P>) -> bool {
    before.connections.dom().subset_of(after.connections.dom())
}

impl<P: Protocol> View for PollDriver<P> {
    type V = DriverState<P>;

    closed spec fn view(&self) -> DriverState<P> {
        DriverState {
            connections: self.connections@,
            recv_buf: buffer_bytes(self.recv_buf),
            send_buf: self.send_buf@,
            response_buf: self.response_buf@,
        }
    }
}

/// A drive cycle in progress.
pub struct DriveCycle<P: Protocol> {
    now: Instant,
    phase: Phase,
    left: usize,
    current: ConnectionHandle,
    drained: bool,
    pending: VecDeque<ConnectionHandle>,
    routed: VecDeque<(ConnectionHandle, EndpointMessage<P::EndpointEvent>)>,
    events: Vec<PollEventOf<P>>,
}

impl<P: Protocol> View for DriveCycle<P> {
    type V = CycleState<P>;

    closed spec fn view(&self) -> CycleState<P> {
        CycleState {
            now: self.now,
            phase: self.phase,
            left: self.left as nat,
            current: self.current,
            drained: self.drained,
            pending: self.pending@,
            routed: self.routed@,
            events: self.events@,
        }
    }
}

impl<P: Protocol> DriveCycle<P> {
    /// A cycle about to start, at the time `now`.
    pub fn new(now: Instant) -> (cycle: Self)
        ensures
            cycle@ == cycle_start::<P>(now),
    {
        DriveCycle {
            now,
            phase: Phase::Receive,
            left: RECV_BATCH_SIZE,
            current: 0,
            drained: false,
            pending: VecDeque::new(),
            routed: VecDeque::new(),
            events: Vec::new(),
        }
    }

    /// The events for the application to process.
    pub fn into_events(self) -> (events: Vec<PollEventOf<P>>)
        ensures
            events@ == self@.events,
    {
        self.events
    }
}

/// A flush in progress.
pub struct FlushCycle {
    now: Instant,
    phase: FlushPhase,
    current: ConnectionHandle,
    left: usize,
    pending: VecDeque<ConnectionHandle>,
    total: usize,
}

impl View for FlushCycle {
    type V = FlushState;

    closed spec fn view(&self) -> FlushState {
        FlushState {
            now: self.now,
            phase: self.phase,
            current: self.current,
            left: self.left as nat,
            pending: self.pending@,
            total: self.total as nat,
        }
    }
}

impl FlushCycle {
    /// A flush about to start, at the time `now`.
    pub fn new(now: Instant) -> (flush: Self)
        ensures
            flush@ == flush_start(now),
    {
        FlushCycle {
            now,
            phase: FlushPhase::Start,
            current: 0,
            left: 0,
            pending: VecDeque::new(),
            total: 0,
        }
    }

    /// How many datagrams have been sent.
    pub fn total(&self) -> (total: usize)
        ensures
            total == self@.total,
    {
        self.total
    }
}

impl<P: Protocol> DriveAction<P, BytesMut> {
    /// The action, with the bytes of its datagram.
    pub open spec fn view(&self) -> DriveAction<P, Seq<u8>> {
        match *self {
            DriveAction::Receive => DriveAction::Receive,
            DriveAction::Handle { now, data, source, local } => DriveAction::Handle {
                now,
                data: buffer_bytes(data),
                source,
                local,
            },
            DriveAction::Respond(transmit) => DriveAction::Respond(transmit),
            DriveAction::Deliver { connection, event } => DriveAction::Deliver {
                connection,
                event,
            },
            DriveAction::PollTimeout { connection } => DriveAction::PollTimeout { connection },
            DriveAction::HandleTimeout { connection, now } => DriveAction::HandleTimeout {
                connection,
                now,
            },
            DriveAction::PollEndpointEvent { connection } => DriveAction::PollEndpointEvent {
                connection,
            },
            DriveAction::HandleEndpointEvent { connection, message } =>
                DriveAction::HandleEndpointEvent { connection, message },
            DriveAction::Poll { connection } => DriveAction::Poll { connection },
            DriveAction::Continue => DriveAction::Continue,
            DriveAction::Finish => DriveAction::Finish,
            DriveAction::Unexpected => DriveAction::Unexpected,
        }
    }
}

impl<P: Protocol> PollDriver<P> {
    /// Create a new poll-based driver, without connections.
    pub fn new() -> (driver: Self)
        ensures
            driver@ == (DriverState::<P> {
                connections: Map::empty(),
                recv_buf: resized(Seq::empty(), RECV_BUF_SIZE as nat),
                send_buf: Seq::empty(),
                response_buf: Seq::empty(),
            }),
            driver@.recv_buf.len() == RECV_BUF_SIZE,
            forall|i: int| 0 <= i < RECV_BUF_SIZE ==> #[trigger] driver@.recv_buf[i] == 0,
    {
        PollDriver {
            connections: HashMap::new(),
            recv_buf: BytesMut::zeroed(RECV_BUF_SIZE),
            send_buf: Vec::new(),
            response_buf: Vec::new(),
        }
    }

    /// The connections in the table, each once, in the order in which the table
    /// is walked.
    pub(crate) fn handles(&self) -> (order: VecDeque<ConnectionHandle>)
        ensures
            lists(order@, self@.connections.dom()),
            order@.no_duplicates(),
            forall|connection: ConnectionHandle| #[trigger]
                order@.contains(connection) <==> self@.connections.contains_key(connection),
    {
        broadcast use vstd::std_specs::hash::group_hash_axioms;

        let mut order: VecDeque<ConnectionHandle> = VecDeque::new();
        for handle in walk: self.connections.keys()
            invariant
                order@ == walk.seq().unref().take(walk.index() as int),
                walk.seq() == vstd::std_specs::hash::spec_keys_iter(&self.connections).remaining(),
        {
            order.push_back(*handle);
        }
        proof {
            let keys = vstd::std_specs::hash::spec_keys_iter(&self.connections).remaining();
            assert(order@ == keys.unref());
            assert forall|connection: ConnectionHandle| #[trigger]
                order@.contains(connection) <==> self@.connections.contains_key(connection) by {
                assert(order@.to_set().contains(connection) <==> order@.contains(connection));
            }
        }
        order
    }

    /// Receive incoming datagrams and route them to the endpoint.
    fn drive_recv(&mut self, cycle: &mut DriveCycle<P>, input: DriveInput<P>) -> (action:
        DriveAction<P, BytesMut>)
        requires
            input matches DriveInput::Datagram { len, local: Some(_), .. } ==> len
                <= old(self)@.recv_buf.len(),
        ensures
            (final(self)@.recv_buf, final(cycle)@, action@) == receive_step(
                old(self)@.connections.dom(),
                old(self)@.recv_buf,
                old(cycle)@,
                input,
                final(cycle)@.pending,
            ),
            walks(old(cycle)@, input) && old(cycle)@.phase is Receive ==> lists(
                final(cycle)@.pending,
                old(self)@.connections.dom(),
            ),
            final(self)@ == (DriverState { recv_buf: final(self)@.recv_buf, ..old(self)@ }),
    {
        broadcast use vstd::std_specs::hash::group_hash_axioms;

        match (cycle.phase, input) {
            (Phase::Receive, DriveInput::Ready) => {
                if cycle.left == 0 {
                    cycle.phase = Phase::Timers;
                    cycle.pending = self.handles();
                    DriveAction::Continue
                } else {
                    self.recv_buf.resize(RECV_BUF_SIZE, 0);
                    cycle.phase = Phase::Receiving;
                    cycle.left = cycle.left - 1;
                    DriveAction::Receive
                }
            },
            (Phase::Receiving, DriveInput::WouldBlock) => {
                cycle.phase = Phase::Receive;
                cycle.left = 0;
                DriveAction::Continue
            },
            (Phase::Receiving, DriveInput::ReceiveFailed) => {
                cycle.phase = Phase::Receive;
                cycle.left = 0;
                DriveAction::Continue
            },
            (Phase::Receiving, DriveInput::Datagram { len, source, local }) => match local {
                None => {
                    cycle.phase = Phase::Receive;
                    DriveAction::Continue
                },
                Some(local) => {
                    let data = self.recv_buf.split_to(len);
                    cycle.phase = Phase::Handling;
                    DriveAction::Handle { now: cycle.now, data, source, local }
                },
            },
            (Phase::Handling, DriveInput::Handled(handled)) => {
                cycle.phase = Phase::Receive;
                match handled {
                    None => DriveAction::Continue,
                    Some(DatagramEvent::NewConnection(incoming)) => {
                        cycle.events.push(PollEvent::NewConnection(incoming));
                        DriveAction::Continue
                    },
                    Some(DatagramEvent::ConnectionEvent(connection, event)) => {
                        if self.connections.contains_key(&connection) {
                            DriveAction::Deliver { connection, event }
                        } else {
                            DriveAction::Continue
                        }
                    },
                    Some(DatagramEvent::Response(transmit)) => DriveAction::Respond(transmit),
                }
            },
            _ => DriveAction::Unexpected,
        }
    }

    /// Handle timeouts for all connections.
    fn drive_timers(&self, cycle: &mut DriveCycle<P>, input: DriveInput<P>) -> (action: DriveAction<
        P,
        BytesMut,
    >)
        ensures
            (final(cycle)@, action@) == timers_step(old(cycle)@, input, final(cycle)@.pending),
            walks(old(cycle)@, input) && old(cycle)@.phase is Timers ==> lists(
                final(cycle)@.pending,
                self@.connections.dom(),
            ),
    {
        match (cycle.phase, input) {
            (Phase::Timers, DriveInput::Ready) => match cycle.pending.pop_front() {
                None => {
                    cycle.phase = Phase::Gather;
                    cycle.pending = self.handles();
                    DriveAction::Continue
                },
                Some(connection) => {
                    cycle.phase = Phase::Deadline;
                    cycle.current = connection;
                    DriveAction::PollTimeout { connection }
                },
            },
            (Phase::Deadline, DriveInput::Deadline(deadline)) => {
                cycle.phase = Phase::Timers;
                match deadline {
                    Some(deadline) if cycle.now >= deadline => DriveAction::HandleTimeout {
                        connection: cycle.current,
                        now: cycle.now,
                    },
                    _ => DriveAction::Continue,
                }
            },
            _ => DriveAction::Unexpected,
        }
    }

    /// Take a drained connection out of the table, once its last message has
    /// been routed.
    fn settle(&mut self, cycle: &DriveCycle<P>)
        ensures
            final(self)@ == (DriverState {
                connections: if cycle@.drained {
                    old(self)@.connections.remove(cycle@.current)
                } else {
                    old(self)@.connections
                },
                ..old(self)@
            }),
    {
        broadcast use vstd::std_specs::hash::group_hash_axioms;

        if cycle.drained {
            self.connections.remove(&cycle.current);
        }
    }

    /// Route endpoint events between connections and endpoint.
    fn route_endpoint_events(&mut self, cycle: &mut DriveCycle<P>, input: DriveInput<P>) -> (action:
        DriveAction<P, BytesMut>)
        ensures
            (final(self)@.connections.dom(), final(cycle)@, action@) == route_step(
                old(self)@.connections.dom(),
                old(cycle)@,
                input,
                final(cycle)@.pending,
            ),
            walks(old(cycle)@, input) && old(cycle)@.phase is Route ==> lists(
                final(cycle)@.pending,
                old(self)@.connections.dom(),
            ),
            final(self)@ == (DriverState {
                connections: old(self)@.connections.restrict(final(self)@.connections.dom()),
                ..old(self)@
            }),
    {
        broadcast use vstd::std_specs::hash::group_hash_axioms;

        let ghost before = self@.connections;
        assert(before.restrict(before.dom()) == before);
        assert(before.restrict(before.dom().remove(cycle.current)) == before.remove(cycle.current));
        match (cycle.phase, input) {
            (Phase::Gather, DriveInput::Ready) => match cycle.pending.pop_front() {
                None => {
                    cycle.phase = Phase::Route;
                    DriveAction::Continue
                },
                Some(connection) => {
                    cycle.phase = Phase::Gathering;
                    cycle.current = connection;
                    DriveAction::PollEndpointEvent { connection }
                },
            },
            (Phase::Gathering, DriveInput::EndpointEvent(message)) => match message {
                None => {
                    cycle.phase = Phase::Gather;
                    DriveAction::Continue
                },
                Some(message) => {
                    cycle.routed.push_back((cycle.current, message));
                    DriveAction::PollEndpointEvent { connection: cycle.current }
                },
            },
            (Phase::Route, DriveInput::Ready) => match cycle.routed.pop_front() {
                None => {
                    cycle.phase = Phase::Collect;
                    cycle.pending = self.handles();
                    DriveAction::Continue
                },
                Some((connection, message)) => {
                    cycle.phase = Phase::Replying;
                    cycle.current = connection;
                    cycle.drained = message.drained;
                    DriveAction::HandleEndpointEvent { connection, message: message.event }
                },
            },
            (Phase::Replying, DriveInput::Reply(reply)) => match reply {
                Some(event) if self.connections.contains_key(&cycle.current) => {
                    cycle.phase = Phase::Delivering;
                    DriveAction::Deliver { connection: cycle.current, event }
                },
                _ => {
                    self.settle(cycle);
                    cycle.phase = Phase::Route;
                    DriveAction::Continue
                },
            },
            (Phase::Delivering, DriveInput::Ready) => {
                self.settle(cycle);
                cycle.phase = Phase::Route;
                DriveAction::Continue
            },
            _ => DriveAction::Unexpected,
        }
    }

    /// Collect application events from all connections.
    fn collect_app_events(&self, cycle: &mut DriveCycle<P>, input: DriveInput<P>) -> (action:
        DriveAction<P, BytesMut>)
        ensures
            (final(cycle)@, action@) == collect_step(
                self@.connections.dom(),
                old(cycle)@,
                input,
            ),
    {
        broadcast use vstd::std_specs::hash::group_hash_axioms;

        match (cycle.phase, input) {
            (Phase::Collect, DriveInput::Ready) => match cycle.pending.pop_front() {
                None => {
                    cycle.phase = Phase::Finished;
                    DriveAction::Finish
                },
                Some(connection) => {
                    if self.connections.contains_key(&connection) {
                        cycle.phase = Phase::Polling;
                        cycle.current = connection;
                        DriveAction::Poll { connection }
                    } else {
                        DriveAction::Continue
                    }
                },
            },
            (Phase::Polling, DriveInput::Event(event)) => match event {
                None => {
                    cycle.phase = Phase::Collect;
                    DriveAction::Continue
                },
                Some(event) => {
                    match report(cycle.current, event) {
                        Some(told) => cycle.events.push(told),
                        None => {},
                    }
                    DriveAction::Poll { connection: cycle.current }
                },
            },
            _ => DriveAction::Unexpected,
        }
    }

    /// Drive the endpoint forward by one step of `cycle`.
    ///
    /// A cycle starts after the socket becomes readable or after a timer from
    /// [`Self::poll_timeout`] has fired. `input` says what became of the last
    /// action, and is [`DriveInput::Ready`] at the start; the action returned
    /// has to be performed next. After [`DriveAction::Finish`] the events for
    /// the application are [`DriveCycle::into_events`].
    pub fn drive(&mut self, cycle: &mut DriveCycle<P>, input: DriveInput<P>) -> (action:
        DriveAction<P, BytesMut>)
        requires
            input matches DriveInput::Datagram { len, local: Some(_), .. } ==> len
                <= old(self)@.recv_buf.len(),
        ensures
            (DriveStep {
                handles: final(self)@.connections.dom(),
                recv_buf: final(self)@.recv_buf,
                cycle: final(cycle)@,
                action: action@,
            }) == drive_step(
                old(self)@.connections.dom(),
                old(self)@.recv_buf,
                old(cycle)@,
                input,
                final(cycle)@.pending,
            ),
            walks(old(cycle)@, input) ==> lists(
                final(cycle)@.pending,
                old(self)@.connections.dom(),
            ),
            final(self)@ == (DriverState {
                connections: old(self)@.connections.restrict(final(self)@.connections.dom()),
                recv_buf: final(self)@.recv_buf,
                ..old(self)@
            }),
            action is Receive ==> final(self)@.recv_buf.len() == RECV_BUF_SIZE,
            action matches DriveAction::Handle { data, .. } ==> {
                &&& buffer_bytes(data) + final(self)@.recv_buf == old(self)@.recv_buf
                &&& input matches DriveInput::Datagram { len, .. }
                &&& buffer_bytes(data).len() == len
            },
            !(action is Receive) && !(action is Handle) ==> {
                final(self)@.recv_buf == old(self)@.recv_buf
            },
            action matches DriveAction::HandleTimeout { connection, now } ==> connection
                == old(cycle)@.current && now == old(cycle)@.now,
            old(cycle)@.phase is Deadline ==> (input matches DriveInput::Deadline(Some(deadline))
                ==> (action is HandleTimeout <==> old(cycle)@.now >= deadline)),
    {
        assert(self@.connections.restrict(self@.connections.dom()) == self@.connections);
        match cycle.phase {
            Phase::Receive | Phase::Receiving | Phase::Handling => self.drive_recv(cycle, input),
            Phase::Timers | Phase::Deadline => self.drive_timers(cycle, input),
            Phase::Gather | Phase::Gathering | Phase::Route | Phase::Replying | Phase::Delivering
            => self.route_endpoint_events(cycle, input),
            Phase::Collect | Phase::Polling => self.collect_app_events(cycle, input),
            Phase::Finished => DriveAction::Unexpected,
        }
    }

    /// Go on with the visit of a flush to a connection.
    fn flush_connection_transmits(flush: &mut FlushCycle, input: FlushInput<P>) -> (action:
        FlushAction<P>)
        requires
            input is Sent ==> old(flush)@.total < usize::MAX,
        ensures
            (final(flush)@, action) == visit_step(old(flush)@, input),
    {
        match (flush.phase, input) {
            (FlushPhase::Polling, FlushInput::Transmit(None)) => {
                flush.phase = FlushPhase::Next;
                FlushAction::Continue
            },
            (FlushPhase::Polling, FlushInput::Transmit(Some(transmit))) => {
                flush.phase = FlushPhase::Sending;
                FlushAction::Send(transmit)
            },
            (FlushPhase::Sending, FlushInput::Sent) => {
                flush.total = flush.total + 1;
                if flush.left <= 1 {
                    flush.phase = FlushPhase::Next;
                    flush.left = 0;
                    FlushAction::Continue
                } else {
                    flush.phase = FlushPhase::Polling;
                    flush.left = flush.left - 1;
                    FlushAction::PollTransmit {
                        connection: flush.current,
                        now: flush.now,
                        max_datagrams: SEND_BATCH_SIZE,
                    }
                }
            },
            (FlushPhase::Sending, FlushInput::WouldBlock) => {
                flush.phase = FlushPhase::Next;
                FlushAction::Continue
            },
            (FlushPhase::Sending, FlushInput::SendFailed(error)) => {
                flush.phase = FlushPhase::Finished;
                FlushAction::Finish(Err(error))
            },
            _ => FlushAction::Unexpected,
        }
    }

    /// Flush pending outgoing packets for all connections, by one step of
    /// `flush`.
    ///
    /// A flush follows a drive cycle, to send any outgoing data. `input` says
    /// what became of the last action, and is [`FlushInput::Ready`] at the
    /// start; the action returned has to be performed next.
    /// [`FlushAction::Finish`] ends the flush.
    pub fn flush_transmits(&self, flush: &mut FlushCycle, input: FlushInput<P>) -> (action:
        FlushAction<P>)
        requires
            input is Sent ==> old(flush)@.total < usize::MAX,
        ensures
            (final(flush)@, action) == flush_step(
                self@.connections.dom(),
                old(flush)@,
                input,
                final(flush)@.pending,
            ),
            flush_walks(old(flush)@, input) ==> lists(
                final(flush)@.pending,
                self@.connections.dom(),
            ),
    {
        broadcast use vstd::std_specs::hash::group_hash_axioms;

        match (flush.phase, input) {
            (FlushPhase::Start, FlushInput::Ready) => {
                flush.phase = FlushPhase::Next;
                flush.pending = self.handles();
                FlushAction::Continue
            },
            (FlushPhase::Next, FlushInput::Ready) => match flush.pending.pop_front() {
                None => {
                    flush.phase = FlushPhase::Finished;
                    FlushAction::Finish(Ok(flush.total))
                },
                Some(connection) => {
                    if self.connections.contains_key(&connection) {
                        flush.phase = FlushPhase::Polling;
                        flush.current = connection;
                        flush.left = SEND_BATCH_SIZE;
                        FlushAction::PollTransmit {
                            connection,
                            now: flush.now,
                            max_datagrams: SEND_BATCH_SIZE,
                        }
                    } else {
                        FlushAction::Continue
                    }
                },
            },
            (_, input) => Self::flush_connection_transmits(flush, input),
        }
    }

    /// The connection, if it is in the table.
    pub(crate) fn lookup(&mut self, connection: ConnectionHandle) -> (found: Result<
        &mut P::Connection,
        PollDriverError<P>,
    >)
        ensures
            match found {
                Ok(state) => {
                    &&& old(self)@.connections.contains_key(connection)
                    &&& *state == old(self)@.connections[connection]
                    &&& final(self)@ == (DriverState {
                        connections: old(self)@.connections.insert(connection, *final(state)),
                        ..old(self)@
                    })
                },
                Err(error) => {
                    &&& !old(self)@.connections.contains_key(connection)
                    &&& error == PollDriverError::<P>::UnknownConnection
                    &&& final(self)@ == old(self)@
                },
            },
    {
        broadcast use vstd::std_specs::hash::group_hash_axioms;

        assert(self@.connections.remove(connection) == self@.connections
            || self@.connections.contains_key(connection));
        match self.connections.entry(connection) {
            Entry::Occupied(entry) => Ok(entry.into_mut()),
            Entry::Vacant(_) => Err(PollDriverError::UnknownConnection),
        }
    }

    /// Take a connection into the table.
    pub(crate) fn register(&mut self, connection: ConnectionHandle, state: P::Connection)
        ensures
            final(self)@ == (DriverState {
                connections: old(self)@.connections.insert(connection, state),
                ..old(self)@
            }),
    {
        broadcast use vstd::std_specs::hash::group_hash_axioms;

        self.connections.insert(connection, state);
    }

    /// The connection, for an action of a cycle to be performed on it.
    pub fn connection(&mut self, connection: ConnectionHandle) -> (found: Option<
        &mut P::Connection,
    >)
        ensures
            keeps_known(old(self)@, final(self)@),
            match found {
                Some(state) => {
                    &&& old(self)@.connections.contains_key(connection)
                    &&& *state == old(self)@.connections[connection]
                    &&& final(self)@ == (DriverState {
                        connections: old(self)@.connections.insert(connection, *final(state)),
                        ..old(self)@
                    })
                },
                None => {
                    &&& !old(self)@.connections.contains_key(connection)
                    &&& final(self)@ == old(self)@
                },
            },
    {
        match self.lookup(connection) {
            Ok(state) => Some(state),
            Err(_) => None,
        }
    }

    /// The connection, together with the send buffer that its datagrams are
    /// written to.
    pub fn connection_and_send_buf(&mut self, connection: ConnectionHandle) -> (found: Option<
        (&mut P::Connection, &mut Vec<u8>),
    >)
        ensures
            keeps_known(old(self)@, final(self)@),
            match found {
                Some((state, send_buf)) => {
                    &&& old(self)@.connections.contains_key(connection)
                    &&& *state == old(self)@.connections[connection]
                    &&& send_buf@ == old(self)@.send_buf
                    &&& final(self)@ == (DriverState {
                        connections: old(self)@.connections.insert(connection, *final(state)),
                        send_buf: final(send_buf)@,
                        ..old(self)@
                    })
                },
                None => {
                    &&& !old(self)@.connections.contains_key(connection)
                    &&& final(self)@ == old(self)@
                },
            },
    {
        broadcast use vstd::std_specs::hash::group_hash_axioms;

        assert(self@.connections.remove(connection) == self@.connections
            || self@.connections.contains_key(connection));
        match self.connections.entry(connection) {
            Entry::Occupied(entry) => Some((entry.into_mut(), &mut self.send_buf)),
            Entry::Vacant(_) => None,
        }
    }

    /// The receive buffer, for a datagram to be received into.
    pub fn recv_buf(&mut self) -> (recv_buf: &mut [u8])
        ensures
            keeps_known(old(self)@, final(self)@),
            recv_buf@ == old(self)@.recv_buf,
            final(recv_buf)@.len() == recv_buf@.len(),
            final(self)@ == (DriverState { recv_buf: final(recv_buf)@, ..old(self)@ }),
    {
        buffer_slice(&mut self.recv_buf)
    }

    /// The response buffer, for the endpoint to write responses to, and for
    /// these to be sent from (see [`Transmit::payload`]).
    pub fn response_buf(&mut self) -> (response_buf: &mut Vec<u8>)
        ensures
            keeps_known(old(self)@, final(self)@),
            response_buf@ == old(self)@.response_buf,
            final(self)@ == (DriverState { response_buf: final(response_buf)@, ..old(self)@ }),
    {
        &mut self.response_buf
    }

    /// The send buffer, for datagrams to be sent from (see
    /// [`Transmit::payload`]).
    pub fn send_buf(&self) -> (send_buf: &[u8])
        ensures
            send_buf@ == self@.send_buf,
    {
        self.send_buf.as_slice()
    }
}

} // verus!
