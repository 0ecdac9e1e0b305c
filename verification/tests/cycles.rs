//! Whole cycles of the driver, against a scripted socket, endpoint and
//! connections.

use std::collections::VecDeque;

use bytes::BytesMut;
use poll_driver::{
    DatagramEvent, Dir, DriveAction, DriveCycle, DriveInput, EndpointMessage, Event, FlushAction,
    FlushCycle, FlushInput, PollDriver, PollEvent, Protocol, Transmit, RECV_BATCH_SIZE,
    RECV_BUF_SIZE, SEND_BATCH_SIZE,
};

/// A protocol whose connections do what a script says.
struct Toy;

#[derive(Default)]
struct Conn {
    deadline: Option<i128>,
    fired: Vec<i128>,
    delivered: Vec<u32>,
    messages: VecDeque<(u32, bool)>,
    events: VecDeque<Event<u64, &'static str>>,
    outgoing: VecDeque<&'static [u8]>,
    limits: Vec<usize>,
}

impl Protocol for Toy {
    type Connection = Conn;
    type Incoming = &'static str;
    type ConnectionEvent = u32;
    type EndpointEvent = u32;
    type StreamId = u64;
    type ConnectionError = &'static str;
    type ConnectError = &'static str;
    type ServerConfig = u8;
    type ClientConfig = u8;
    type ErrorCode = u64;
    type Address = u16;
    type LocalAddress = u8;
    type Stats = usize;
    type IoError = &'static str;
    type ReadError = &'static str;
    type ReadableError = &'static str;
    type WriteError = &'static str;
    type FinishError = &'static str;
}

type ToyEvent = PollEvent<&'static str, u64, &'static str>;

/// What the socket gives on the next attempts to receive.
enum Incoming {
    Datagram(&'static [u8], u16, Option<u8>),
    Fails,
}

/// A socket that has datagrams to give and remembers what was sent, and an
/// endpoint that decides by the first byte of a datagram.
#[derive(Default)]
struct World {
    incoming: VecDeque<Incoming>,
    attempts: usize,
    handled: Vec<(i128, Vec<u8>, u16, u8)>,
    responses: Vec<(u16, Vec<u8>)>,
    messages: Vec<(usize, u32)>,
    replies: VecDeque<Option<u32>>,
    sent: Vec<(u16, Vec<u8>)>,
    log: Vec<&'static str>,
    turns: usize,
}

fn driver(connections: Vec<(usize, Conn)>) -> PollDriver<Toy> {
    let mut driver = PollDriver::new();
    for (handle, conn) in connections {
        assert_eq!(driver.connect(0, 0, 0, "", |_, _, _, _| Ok((handle, conn))), Ok(handle));
    }
    driver
}

fn endpoint(data: &BytesMut, response: &mut Vec<u8>) -> Option<DatagramEvent<Toy>> {
    match data.first() {
        Some(b'N') => Some(DatagramEvent::NewConnection("attempt")),
        Some(b'C') => Some(DatagramEvent::ConnectionEvent(data[1] as usize, data[2] as u32)),
        Some(b'R') => {
            response.extend_from_slice(b"no!");
            Some(DatagramEvent::Response(Transmit { destination: 9, size: 2 }))
        }
        _ => None,
    }
}

/// Performs one action of a drive cycle.
fn perform(
    world: &mut World,
    driver: &mut PollDriver<Toy>,
    action: DriveAction<Toy, BytesMut>,
) -> Option<DriveInput<Toy>> {
    Some(match action {
        DriveAction::Receive => {
            world.attempts += 1;
            let buffer = driver.recv_buf();
            assert_eq!(buffer.len(), RECV_BUF_SIZE);
            match world.incoming.pop_front() {
                None => DriveInput::WouldBlock,
                Some(Incoming::Fails) => DriveInput::ReceiveFailed,
                Some(Incoming::Datagram(data, source, local)) => {
                    buffer[..data.len()].copy_from_slice(data);
                    DriveInput::Datagram { len: data.len(), source, local }
                }
            }
        }
        DriveAction::Handle { now, data, source, local } => {
            world.handled.push((now, data.to_vec(), source, local));
            DriveInput::Handled(endpoint(&data, driver.response_buf()))
        }
        DriveAction::Respond(transmit) => {
            let data = transmit.payload(driver.response_buf()).to_vec();
            world.responses.push((transmit.destination, data));
            DriveInput::Ready
        }
        DriveAction::Deliver { connection, event } => {
            world.log.push("deliver");
            driver.connection(connection).unwrap().delivered.push(event);
            DriveInput::Ready
        }
        DriveAction::PollTimeout { connection } => {
            world.log.push("timeout");
            DriveInput::Deadline(driver.connection(connection).unwrap().deadline)
        }
        DriveAction::HandleTimeout { connection, now } => {
            driver.connection(connection).unwrap().fired.push(now);
            DriveInput::Ready
        }
        DriveAction::PollEndpointEvent { connection } => {
            world.log.push("gather");
            let message = driver.connection(connection).unwrap().messages.pop_front();
            DriveInput::EndpointEvent(
                message.map(|(event, drained)| EndpointMessage { event, drained }),
            )
        }
        DriveAction::HandleEndpointEvent { connection, message } => {
            world.log.push("route");
            world.messages.push((connection, message));
            DriveInput::Reply(world.replies.pop_front().unwrap_or(None))
        }
        DriveAction::Poll { connection } => {
            world.log.push("poll");
            DriveInput::Event(driver.connection(connection).unwrap().events.pop_front())
        }
        DriveAction::Continue => DriveInput::Ready,
        DriveAction::Finish => return None,
        DriveAction::Unexpected => panic!("every input answers its action"),
    })
}

fn drive(world: &mut World, driver: &mut PollDriver<Toy>, now: i128) -> Vec<ToyEvent> {
    let mut cycle = DriveCycle::new(now);
    let mut input = DriveInput::Ready;
    loop {
        world.turns += 1;
        let action = driver.drive(&mut cycle, input);
        match perform(world, driver, action) {
            Some(next) => input = next,
            None => return cycle.into_events(),
        }
    }
}

/// Runs a flush; `socket` says what becomes of each attempt to send.
fn flush<F>(
    world: &mut World,
    driver: &mut PollDriver<Toy>,
    now: i128,
    mut socket: F,
) -> Result<usize, &'static str>
where
    F: FnMut(usize) -> FlushInput<Toy>,
{
    let mut cycle = FlushCycle::new(now);
    let mut input = FlushInput::Ready;
    loop {
        world.turns += 1;
        input = match driver.flush_transmits(&mut cycle, input) {
            FlushAction::PollTransmit { connection, now: at, max_datagrams } => {
                assert_eq!(at, now);
                let (conn, buffer) = driver.connection_and_send_buf(connection).unwrap();
                conn.limits.push(max_datagrams);
                FlushInput::Transmit(conn.outgoing.pop_front().map(|data| {
                    buffer.clear();
                    buffer.extend_from_slice(data);
                    buffer.extend_from_slice(b"rest");
                    Transmit { destination: connection as u16, size: data.len() }
                }))
            }
            FlushAction::Send(transmit) => {
                let data = transmit.payload(driver.send_buf()).to_vec();
                world.sent.push((transmit.destination, data));
                socket(world.sent.len())
            }
            FlushAction::Continue => FlushInput::Ready,
            FlushAction::Finish(result) => return result,
            FlushAction::Unexpected => panic!("every input answers its action"),
        }
    }
}

#[test]
fn an_idle_cycle_reports_nothing() {
    let mut world = World::default();
    let mut driver = driver(vec![]);
    assert_eq!(drive(&mut world, &mut driver, 5), vec![]);
    assert_eq!(world.attempts, 1);
}

#[test]
fn a_datagram_goes_to_the_endpoint_as_it_came() {
    let mut world = World::default();
    world.incoming.push_back(Incoming::Datagram(b"hello", 7, Some(1)));
    world.incoming.push_back(Incoming::Datagram(b"", 8, Some(2)));
    let mut driver = driver(vec![]);
    assert_eq!(drive(&mut world, &mut driver, 5), vec![]);
    assert_eq!(
        world.handled,
        vec![(5, b"hello".to_vec(), 7, 1), (5, b"".to_vec(), 8, 2)]
    );
}

#[test]
fn a_datagram_without_a_local_address_is_passed_over() {
    let mut world = World::default();
    world.incoming.push_back(Incoming::Datagram(b"N", 7, None));
    world.incoming.push_back(Incoming::Datagram(b"N", 7, Some(1)));
    let mut driver = driver(vec![]);
    assert_eq!(
        drive(&mut world, &mut driver, 5),
        vec![PollEvent::NewConnection("attempt")]
    );
    assert_eq!(world.attempts, 3);
}

#[test]
fn receiving_stops_when_the_socket_fails() {
    let mut world = World::default();
    world.incoming.push_back(Incoming::Fails);
    world.incoming.push_back(Incoming::Datagram(b"N", 7, Some(1)));
    let mut driver = driver(vec![]);
    assert_eq!(drive(&mut world, &mut driver, 5), vec![]);
    assert_eq!(world.attempts, 1);
    // The next cycle goes on where the last one stopped.
    assert_eq!(
        drive(&mut world, &mut driver, 6),
        vec![PollEvent::NewConnection("attempt")]
    );
}

#[test]
fn a_cycle_receives_a_bounded_batch() {
    let mut world = World::default();
    for _ in 0..100 {
        world.incoming.push_back(Incoming::Datagram(b"N", 7, Some(1)));
    }
    let mut driver = driver(vec![]);
    assert_eq!(drive(&mut world, &mut driver, 5).len(), 64);
    assert_eq!(RECV_BATCH_SIZE, 64);
    assert_eq!(world.attempts, 64);
    assert_eq!(drive(&mut world, &mut driver, 6).len(), 36);
}

#[test]
fn datagrams_reach_known_connections_only() {
    let mut world = World::default();
    world.incoming.push_back(Incoming::Datagram(&[b'C', 3, 41], 7, Some(1)));
    world.incoming.push_back(Incoming::Datagram(&[b'C', 4, 42], 7, Some(1)));
    let mut driver = driver(vec![(3, Conn::default())]);
    assert_eq!(drive(&mut world, &mut driver, 5), vec![]);
    assert_eq!(driver.connection(3).unwrap().delivered, vec![41]);
    assert!(driver.connection(4).is_none());
}

#[test]
fn a_response_is_the_front_of_the_response_buffer() {
    let mut world = World::default();
    world.incoming.push_back(Incoming::Datagram(b"R", 7, Some(1)));
    let mut driver = driver(vec![]);
    assert_eq!(drive(&mut world, &mut driver, 5), vec![]);
    assert_eq!(world.responses, vec![(9, b"no".to_vec())]);
}

#[test]
fn timers_fire_when_due() {
    let mut world = World::default();
    let mut driver = driver(vec![
        (1, Conn { deadline: Some(9), ..Conn::default() }),
        (2, Conn { deadline: Some(10), ..Conn::default() }),
        (3, Conn { deadline: Some(11), ..Conn::default() }),
        (4, Conn::default()),
    ]);
    drive(&mut world, &mut driver, 10);
    assert_eq!(driver.connection(1).unwrap().fired, vec![10]);
    assert_eq!(driver.connection(2).unwrap().fired, vec![10]);
    assert!(driver.connection(3).unwrap().fired.is_empty());
    assert!(driver.connection(4).unwrap().fired.is_empty());
    assert_eq!(world.log.iter().filter(|entry| **entry == "timeout").count(), 4);
}

#[test]
fn messages_are_routed_and_drained_connections_leave() {
    let mut world = World::default();
    world.replies = VecDeque::from(vec![Some(70), None, Some(71), Some(72)]);
    let mut driver = driver(vec![(
        5,
        Conn {
            messages: VecDeque::from(vec![(1, false), (2, false), (3, true), (4, false)]),
            events: VecDeque::from(vec![Event::Connected]),
            ..Conn::default()
        },
    )]);
    // The announcement of a connection that is gone is not collected.
    assert_eq!(drive(&mut world, &mut driver, 5), vec![]);
    assert_eq!(world.messages, vec![(5, 1), (5, 2), (5, 3), (5, 4)]);
    assert!(driver.connection(5).is_none());
    assert_eq!(
        world.log,
        vec![
            "timeout", "gather", "gather", "gather", "gather", "gather", "route", "deliver",
            "route", "route", "deliver", "route"
        ]
    );
}

#[test]
fn a_connection_that_is_not_drained_stays() {
    let mut world = World::default();
    world.replies = VecDeque::from(vec![Some(70), Some(71)]);
    let mut driver = driver(vec![
        (5, Conn { messages: VecDeque::from(vec![(1, false)]), ..Conn::default() }),
        (6, Conn { messages: VecDeque::from(vec![(2, true)]), ..Conn::default() }),
    ]);
    drive(&mut world, &mut driver, 5);
    assert_eq!(driver.connection(5).unwrap().delivered.len(), 1);
    assert!(driver.connection(6).is_none());
}

#[test]
fn announcements_are_reported_in_order() {
    let mut world = World::default();
    world.incoming.push_back(Incoming::Datagram(b"N", 7, Some(1)));
    let mut driver = driver(vec![(
        8,
        Conn {
            events: VecDeque::from(vec![
                Event::Connected,
                Event::Readable(4),
                Event::Other,
                Event::Writable(5),
                Event::Available(Dir::Uni),
                Event::DatagramReceived,
                Event::ConnectionLost("reset"),
            ]),
            ..Conn::default()
        },
    )]);
    assert_eq!(
        drive(&mut world, &mut driver, 5),
        vec![
            PollEvent::NewConnection("attempt"),
            PollEvent::Connected { connection: 8 },
            PollEvent::StreamReadable { connection: 8, stream: 4 },
            PollEvent::StreamWritable { connection: 8, stream: 5 },
            PollEvent::StreamsAvailable { connection: 8, dir: Dir::Uni },
            PollEvent::DatagramReceived { connection: 8 },
            PollEvent::ConnectionLost { connection: 8, reason: "reset" },
        ]
    );
    assert_eq!(world.log.iter().filter(|entry| **entry == "poll").count(), 8);
}

#[test]
fn every_connection_is_polled() {
    let mut world = World::default();
    let mut connections = vec![];
    for handle in 0..10 {
        connections.push((
            handle,
            Conn { events: VecDeque::from(vec![Event::Connected]), ..Conn::default() },
        ));
    }
    let mut driver = driver(connections);
    let mut told: Vec<usize> = vec![];
    for event in drive(&mut world, &mut driver, 5) {
        match event {
            PollEvent::Connected { connection } => told.push(connection),
            _ => panic!("nothing else was announced"),
        }
    }
    told.sort();
    assert_eq!(told, vec![0, 1, 2, 3, 4, 5, 6, 7, 8, 9]);
}

#[test]
fn an_input_that_answers_nothing_changes_nothing() {
    let mut driver = driver(vec![]);
    let mut cycle = DriveCycle::new(5);
    assert!(matches!(
        driver.drive(&mut cycle, DriveInput::Reply(None)),
        DriveAction::Unexpected
    ));
    assert!(matches!(driver.drive(&mut cycle, DriveInput::Ready), DriveAction::Receive));
    assert!(matches!(driver.drive(&mut cycle, DriveInput::Ready), DriveAction::Unexpected));
    assert!(matches!(driver.drive(&mut cycle, DriveInput::WouldBlock), DriveAction::Continue));

    let mut cycle = FlushCycle::new(5);
    assert!(matches!(
        driver.flush_transmits(&mut cycle, FlushInput::Sent),
        FlushAction::Unexpected
    ));
    assert!(matches!(
        driver.flush_transmits(&mut cycle, FlushInput::Ready),
        FlushAction::Continue
    ));
    assert!(matches!(
        driver.flush_transmits(&mut cycle, FlushInput::Ready),
        FlushAction::Finish(Ok(0))
    ));
    assert!(matches!(
        driver.flush_transmits(&mut cycle, FlushInput::Ready),
        FlushAction::Unexpected
    ));
}

#[test]
fn a_flush_sends_what_all_connections_have() {
    let mut world = World::default();
    let mut driver = driver(vec![
        (1, Conn { outgoing: VecDeque::from(vec![&b"one"[..], &b"two"[..]]), ..Conn::default() }),
        (2, Conn { outgoing: VecDeque::from(vec![&b"three"[..]]), ..Conn::default() }),
        (3, Conn::default()),
    ]);
    assert_eq!(flush(&mut world, &mut driver, 5, |_| FlushInput::Sent), Ok(3));
    world.sent.sort();
    assert_eq!(
        world.sent,
        vec![(1, b"one".to_vec()), (1, b"two".to_vec()), (2, b"three".to_vec())]
    );
    assert_eq!(driver.connection(1).unwrap().limits, vec![64, 64, 64]);
    assert_eq!(driver.connection(3).unwrap().limits, vec![64]);
}

#[test]
fn a_flush_sends_a_bounded_batch_per_connection() {
    let mut world = World::default();
    let mut driver = driver(vec![
        (1, Conn { outgoing: VecDeque::from(vec![&b"x"[..]; 100]), ..Conn::default() }),
        (2, Conn { outgoing: VecDeque::from(vec![&b"y"[..]; 2]), ..Conn::default() }),
    ]);
    assert_eq!(SEND_BATCH_SIZE, 64);
    assert_eq!(flush(&mut world, &mut driver, 5, |_| FlushInput::Sent), Ok(66));
    assert_eq!(driver.connection(1).unwrap().outgoing.len(), 36);
    assert_eq!(flush(&mut world, &mut driver, 6, |_| FlushInput::Sent), Ok(36));
}

#[test]
fn a_socket_that_would_block_ends_the_visit_only() {
    let mut world = World::default();
    let mut driver = driver(vec![
        (1, Conn { outgoing: VecDeque::from(vec![&b"a"[..]; 3]), ..Conn::default() }),
        (2, Conn { outgoing: VecDeque::from(vec![&b"b"[..]; 3]), ..Conn::default() }),
    ]);
    let sent = flush(&mut world, &mut driver, 5, |count| {
        if count == 2 {
            FlushInput::WouldBlock
        } else {
            FlushInput::Sent
        }
    });
    // One datagram of the first connection, then all three of the second.
    assert_eq!(sent, Ok(4));
    assert_eq!(world.sent.len(), 5);
}

#[test]
fn a_socket_failure_ends_the_flush() {
    let mut world = World::default();
    let mut driver = driver(vec![
        (1, Conn { outgoing: VecDeque::from(vec![&b"a"[..]; 3]), ..Conn::default() }),
        (2, Conn { outgoing: VecDeque::from(vec![&b"b"[..]; 3]), ..Conn::default() }),
    ]);
    let sent = flush(&mut world, &mut driver, 5, |count| {
        if count == 2 {
            FlushInput::SendFailed("unreachable")
        } else {
            FlushInput::Sent
        }
    });
    assert_eq!(sent, Err("unreachable"));
    assert_eq!(world.sent.len(), 2);
}

#[test]
fn cycles_end_within_their_bounds() {
    let mut world = World::default();
    for _ in 0..200 {
        world.incoming.push_back(Incoming::Datagram(b"R", 7, Some(1)));
    }
    world.replies = VecDeque::from(vec![Some(70), Some(71), None]);
    let mut driver = driver(vec![
        (
            1,
            Conn {
                deadline: Some(0),
                messages: VecDeque::from(vec![(1, false), (2, false)]),
                events: VecDeque::from(vec![Event::Other, Event::Connected]),
                outgoing: VecDeque::from(vec![&b"x"[..]; 100]),
                ..Conn::default()
            },
        ),
        (2, Conn { messages: VecDeque::from(vec![(3, true)]), ..Conn::default() }),
    ]);
    assert_eq!(drive(&mut world, &mut driver, 5), vec![PollEvent::Connected { connection: 1 }]);
    // Two connections, three messages, two announcements.
    assert!(world.turns <= 3 * RECV_BATCH_SIZE + 6 * 2 + 5 + 4 * 3 + 2);

    world.turns = 0;
    assert_eq!(flush(&mut world, &mut driver, 5, |_| FlushInput::Sent), Ok(64));
    // One connection is left.
    assert!(world.turns <= 2 + (2 * SEND_BATCH_SIZE + 2));
}

#[test]
fn a_cycle_goes_through_its_stages_in_order() {
    let mut world = World::default();
    world.incoming.push_back(Incoming::Datagram(&[b'C', 1, 41], 7, Some(1)));
    let mut driver = driver(vec![(
        1,
        Conn {
            messages: VecDeque::from(vec![(1, false)]),
            events: VecDeque::from(vec![Event::Connected]),
            ..Conn::default()
        },
    )]);
    drive(&mut world, &mut driver, 5);
    assert_eq!(
        world.log,
        vec!["deliver", "timeout", "gather", "gather", "route", "poll", "poll"]
    );
}

#[test]
fn the_next_timeout_decides_whether_timers_fire() {
    let connections = || {
        driver(vec![
            (1, Conn { deadline: Some(30), ..Conn::default() }),
            (2, Conn { deadline: Some(20), ..Conn::default() }),
            (3, Conn::default()),
        ])
    };
    let mut driver = connections();
    let next = driver.poll_timeout(|conn| conn.deadline);
    assert_eq!(next, Some(20));
    for (now, fired) in [(19, 0), (20, 1), (29, 1), (30, 2)] {
        let mut driver = connections();
        drive(&mut World::default(), &mut driver, now);
        let count: usize = (1..4).map(|c| driver.connection(c).unwrap().fired.len()).sum();
        assert_eq!(count, fired);
    }
    // Without deadlines there is no next timeout, and none fires.
    let mut driver = crate::driver(vec![(1, Conn::default())]);
    assert_eq!(driver.poll_timeout(|conn| conn.deadline), None);
    drive(&mut World::default(), &mut driver, 1000);
    assert!(driver.connection(1).unwrap().fired.is_empty());
}

#[test]
fn nothing_is_reported_twice() {
    let mut world = World::default();
    let mut driver = driver(vec![
        (1, Conn { events: VecDeque::from(vec![Event::Connected]), ..Conn::default() }),
        (2, Conn { events: VecDeque::from(vec![Event::Readable(4)]), ..Conn::default() }),
    ]);
    assert_eq!(drive(&mut world, &mut driver, 5).len(), 2);
    assert_eq!(drive(&mut world, &mut driver, 5), vec![]);
    // A connection attempt in the next cycle is all that it reports.
    world.incoming.push_back(Incoming::Datagram(b"N", 7, Some(1)));
    assert_eq!(drive(&mut world, &mut driver, 6), vec![PollEvent::NewConnection("attempt")]);
}

#[test]
fn a_report_is_grouped_by_connection() {
    let mut world = World::default();
    let mut connections = vec![];
    for handle in 0..6 {
        connections.push((
            handle,
            Conn {
                events: VecDeque::from(vec![Event::Readable(1), Event::Readable(2)]),
                ..Conn::default()
            },
        ));
    }
    for _ in 0..3 {
        world.incoming.push_back(Incoming::Datagram(b"N", 7, Some(1)));
    }
    let mut driver = driver(connections);
    let events = drive(&mut world, &mut driver, 5);
    assert_eq!(events.len(), 15);
    for event in &events[..3] {
        assert_eq!(*event, PollEvent::NewConnection("attempt"));
    }
    for pair in events[3..].chunks(2) {
        match (&pair[0], &pair[1]) {
            (
                PollEvent::StreamReadable { connection: one, stream: 1 },
                PollEvent::StreamReadable { connection: two, stream: 2 },
            ) => {
                assert_eq!(one, two);
                assert!(driver.connection(*one).is_some());
            }
            _ => panic!("the events of a connection stand next to each other"),
        }
    }
}

#[test]
fn a_flush_visits_in_one_stretch_and_has_a_bound() {
    let mut world = World::default();
    let mut connections = vec![];
    for handle in 0..3 {
        connections.push((
            handle,
            Conn { outgoing: VecDeque::from(vec![&b"x"[..]; 70]), ..Conn::default() },
        ));
    }
    let mut driver = driver(connections);
    assert_eq!(flush(&mut world, &mut driver, 5, |_| FlushInput::Sent), Ok(3 * 64));
    let mut stretches = vec![];
    for (destination, _) in &world.sent {
        if stretches.last() != Some(destination) {
            stretches.push(*destination);
        }
    }
    assert_eq!(stretches.len(), 3);
}

#[test]
fn a_flush_goes_on_until_nothing_is_left() {
    let mut world = World::default();
    let mut connections = vec![];
    for (handle, count) in [(1, 0), (2, 1), (3, 63), (4, 64), (5, 65)] {
        connections.push((
            handle,
            Conn { outgoing: VecDeque::from(vec![&b"x"[..]; count]), ..Conn::default() },
        ));
    }
    let mut driver = driver(connections);
    assert_eq!(flush(&mut world, &mut driver, 5, |_| FlushInput::Sent), Ok(1 + 63 + 64 + 64));
    // A connection is asked once more than it sends, unless it sends a whole batch.
    for (handle, polls, left) in [(1, 1, 0), (2, 2, 0), (3, 64, 0), (4, 64, 0), (5, 64, 1)] {
        let conn = driver.connection(handle).unwrap();
        assert_eq!(conn.limits.len(), polls);
        assert_eq!(conn.outgoing.len(), left);
    }
}
