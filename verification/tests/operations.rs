//! Operations on single connections, and on the table of connections.

use bytes::Bytes;
use poll_driver::{
    AcceptError, ClosedStream, Dir, PollDriver, PollDriverError, Protocol, Transmit,
    RECV_BUF_SIZE,
};

struct Toy;

#[derive(Debug, PartialEq)]
struct Conn {
    name: &'static str,
    used: Vec<String>,
}

fn conn(name: &'static str) -> Conn {
    Conn { name, used: vec![] }
}

impl Protocol for Toy {
    type Connection = Conn;
    type Incoming = u32;
    type ConnectionEvent = u32;
    type EndpointEvent = u32;
    type StreamId = u64;
    type ConnectionError = &'static str;
    type ConnectError = &'static str;
    type ServerConfig = u8;
    type ClientConfig = u8;
    type ErrorCode = u64;
    type Address = u16;
    type LocalAddress = u8;
    type Stats = usize;
    type IoError = &'static str;
    type ReadError = &'static str;
    type ReadableError = &'static str;
    type WriteError = &'static str;
    type FinishError = &'static str;
}

fn driver() -> PollDriver<Toy> {
    let mut driver = PollDriver::new();
    assert_eq!(driver.connected(Ok((1, conn("one")))), Ok(1));
    assert_eq!(driver.connected(Ok((2, conn("two")))), Ok(2));
    driver
}

#[test]
fn a_new_driver_has_no_connections_and_a_zeroed_buffer() {
    let mut driver: PollDriver<Toy> = PollDriver::new();
    assert!(driver.connection(0).is_none());
    assert_eq!(driver.recv_buf().len(), 65536);
    assert_eq!(RECV_BUF_SIZE, 65536);
    assert!(driver.recv_buf().iter().all(|byte| *byte == 0));
    assert!(driver.response_buf().is_empty());
}

#[test]
fn the_receive_buffer_keeps_what_is_written() {
    let mut driver: PollDriver<Toy> = PollDriver::new();
    driver.recv_buf()[3] = 7;
    assert_eq!(driver.recv_buf()[3], 7);
    assert_eq!(driver.recv_buf()[2], 0);
}

#[test]
fn reading_fills_the_buffer() {
    let mut driver = driver();
    let mut buffer = [0u8; 4];
    let read = driver.stream_recv(1, 40, &mut buffer, |state, stream, ordered, buf| {
        state.used.push(format!("read {stream}, ordered: {ordered}"));
        buf[0] = 9;
        Ok(Ok(1))
    });
    assert!(matches!(read, Ok(1)));
    assert_eq!(buffer, [9, 0, 0, 0]);
    assert_eq!(driver.connection(1).unwrap().used, vec!["read 40, ordered: true"]);
    assert_eq!(driver.connection(2), Some(&mut conn("two")));
}

#[test]
fn a_read_fails_where_the_stream_does() {
    let mut driver = driver();
    let mut buffer = [0u8; 4];
    assert!(matches!(
        driver.stream_recv(1, 40, &mut buffer, |_, _, _, _| Ok(Err("blocked"))),
        Err(PollDriverError::Read("blocked"))
    ));
    assert!(matches!(
        driver.stream_recv(1, 40, &mut buffer, |_, _, _, _| Err("closed")),
        Err(PollDriverError::Readable("closed"))
    ));
    assert!(matches!(
        driver.stream_recv(7, 40, &mut buffer, |_, _, _, _| panic!("no such connection")),
        Err(PollDriverError::UnknownConnection)
    ));
    assert_eq!(buffer, [0; 4]);
}

#[test]
fn writing_hands_the_data_over() {
    let mut driver = driver();
    let written = driver.stream_send(2, 41, b"data", |state, stream, data| {
        state.used.push(format!("write {stream} {}", data.len()));
        Ok(3)
    });
    assert!(matches!(written, Ok(3)));
    assert_eq!(driver.connection(2).unwrap().used, vec!["write 41 4"]);
    assert!(matches!(
        driver.stream_send(2, 41, b"data", |_, _, _| Err("stopped")),
        Err(PollDriverError::Write("stopped"))
    ));
    assert!(matches!(
        driver.stream_send(7, 41, b"data", |_, _, _| panic!("no such connection")),
        Err(PollDriverError::UnknownConnection)
    ));
}

#[test]
fn finishing_a_stream() {
    let mut driver = driver();
    assert!(matches!(
        driver.stream_finish(1, 42, |state, stream| {
            state.used.push(format!("finish {stream}"));
            Ok(())
        }),
        Ok(())
    ));
    assert_eq!(driver.connection(1).unwrap().used, vec!["finish 42"]);
    assert!(matches!(
        driver.stream_finish(1, 42, |_, _| Err("finished")),
        Err(PollDriverError::Finish("finished"))
    ));
    assert!(matches!(
        driver.stream_finish(7, 42, |_, _| panic!("no such connection")),
        Err(PollDriverError::UnknownConnection)
    ));
}

#[test]
fn streams_open_in_their_direction() {
    let mut driver = driver();
    let open = |_: &mut Conn, dir: Dir| if dir == Dir::Bi { Some(4) } else { Some(6) };
    assert!(matches!(driver.open_bi(1, open), Ok(Some(4))));
    assert!(matches!(driver.open_uni(1, open), Ok(Some(6))));
    assert!(matches!(driver.open_bi(1, |_, _| None), Ok(None)));
    assert!(matches!(driver.open_uni(1, |_, _| None), Ok(None)));
    assert!(matches!(driver.open_bi(7, open), Err(PollDriverError::UnknownConnection)));
    assert!(matches!(driver.open_uni(7, open), Err(PollDriverError::UnknownConnection)));
}

#[test]
fn closing_a_connection() {
    let mut driver = driver();
    driver.close(1, 5, 3, Bytes::from_static(b"bye"), |state, now, code, reason| {
        assert_eq!(reason, Bytes::from_static(b"bye"));
        state.used.push(format!("close {now} {code}"));
    });
    assert_eq!(driver.connection(1).unwrap().used, vec!["close 5 3"]);
    driver.close(7, 5, 3, Bytes::new(), |_, _, _, _| panic!("no such connection"));
}

#[test]
fn statistics_of_a_connection() {
    let mut driver = driver();
    assert_eq!(driver.connection_stats(1, |state| state.name.len()), Some(3));
    assert_eq!(driver.connection_stats(7, |_| panic!("no such connection")), None);
}

#[test]
fn accepting_a_connection() {
    let mut driver = driver();
    let accepted = driver.accept(30, 5, Some(2), |incoming, now, buffer, config| {
        assert_eq!((incoming, now, config), (30, 5, Some(2)));
        assert!(buffer.is_empty());
        Ok((3, conn("three")))
    });
    assert_eq!(accepted, (Ok(3), None));
    assert_eq!(driver.connection(3), Some(&mut conn("three")));
    assert_eq!(driver.connection(1), Some(&mut conn("one")));
}

#[test]
fn refusing_a_connection() {
    let mut driver = driver();
    let accepted = driver.accept(30, 5, None, |_, _, buffer, _| {
        buffer.extend_from_slice(b"refused");
        Err(AcceptError {
            cause: "full",
            response: Some(Transmit { destination: 9, size: 3 }),
        })
    });
    let transmit = Transmit { destination: 9, size: 3 };
    assert_eq!(transmit.payload(driver.response_buf()), b"ref");
    assert_eq!(accepted, (Err("full"), Some(transmit)));
    assert_eq!(
        driver.accepted(Err(AcceptError { cause: "full", response: None })),
        (Err("full"), None)
    );
    assert!(driver.connection(3).is_none());
}

#[test]
fn connecting() {
    let mut driver = driver();
    let connected = driver.connect(5, 2, 9, "host", |now, config, remote, name| {
        assert_eq!((now, config, remote, name), (5, 2, 9, "host"));
        Ok((4, conn("four")))
    });
    assert_eq!(connected, Ok(4));
    assert_eq!(driver.connection(4), Some(&mut conn("four")));
    assert_eq!(driver.connect(5, 2, 9, "host", |_, _, _, _| Err("no route")), Err("no route"));
}

#[test]
fn the_next_timeout_is_the_earliest() {
    let mut driver = driver();
    assert_eq!(driver.connected(Ok((3, conn("three")))), Ok(3));
    assert_eq!(driver.poll_timeout(|_| None), None);
    let next = driver.poll_timeout(|state| match state.name {
        "one" => Some(30),
        "two" => Some(-4),
        _ => None,
    });
    assert_eq!(next, Some(-4));
    assert_eq!(driver.poll_timeout(|state| Some(state.name.len() as i128)), Some(3));
    let mut empty: PollDriver<Toy> = PollDriver::new();
    assert_eq!(empty.poll_timeout(|_| Some(1)), None);
}

#[test]
fn a_closed_stream_is_an_error() {
    let error: PollDriverError<Toy> = PollDriverError::from(ClosedStream);
    assert!(matches!(error, PollDriverError::ClosedStream));
}

#[test]
fn reads_in_a_row_continue() {
    // The connection hands out the bytes of its list of uses, one string per read.
    let mut driver = driver();
    driver.connection(1).unwrap().used = vec!["abcde".to_string()];
    let read = |state: &mut Conn, _: u64, _: bool, buf: &mut [u8]| {
        let rest = state.used.pop().unwrap();
        let count = rest.len().min(buf.len());
        buf[..count].copy_from_slice(&rest.as_bytes()[..count]);
        state.used.push(rest[count..].to_string());
        Ok(Ok(count))
    };
    let mut first = [0u8; 2];
    let mut second = [0u8; 8];
    assert!(matches!(driver.stream_recv(1, 40, &mut first, read), Ok(2)));
    assert!(matches!(driver.stream_recv(1, 40, &mut second, read), Ok(3)));
    assert_eq!(&first, b"ab");
    assert_eq!(&second[..3], b"cde");
    assert!(matches!(driver.stream_recv(1, 40, &mut second, read), Ok(0)));
}

#[test]
fn a_finished_stream_takes_no_data() {
    let mut driver = driver();
    let write = |state: &mut Conn, _: u64, data: &[u8]| {
        if state.used.contains(&"finished".to_string()) {
            Err("finished")
        } else {
            Ok(data.len())
        }
    };
    assert!(matches!(driver.stream_send(1, 40, b"data", write), Ok(4)));
    let finished = driver.stream_finish(1, 40, |state, _| {
        state.used.push("finished".to_string());
        Ok(())
    });
    assert!(matches!(finished, Ok(())));
    // Operations in between, on this connection and on another, change nothing.
    assert!(matches!(driver.open_bi(1, |_, _| Some(4)), Ok(Some(4))));
    driver.close(2, 5, 3, Bytes::new(), |state, _, _, _| state.used.clear());
    assert!(matches!(
        driver.stream_send(1, 40, b"data", write),
        Err(PollDriverError::Write("finished"))
    ));
    assert!(matches!(
        driver.stream_send(1, 40, b"", write),
        Err(PollDriverError::Write("finished"))
    ));
    assert!(matches!(driver.stream_send(2, 40, b"data", write), Ok(4)));
}

#[test]
fn a_handle_stays_known() {
    let mut driver = driver();
    let open = |_: &mut Conn, _: Dir| Some(4);
    assert_eq!(driver.connect(5, 2, 9, "host", |_, _, _, _| Ok((4, conn("four")))), Ok(4));
    driver.close(4, 5, 3, Bytes::new(), |_, _, _, _| {});
    assert_eq!(driver.accepted(Ok((3, conn("three")))), (Ok(3), None));
    assert_eq!(driver.connect(5, 2, 9, "host", |_, _, _, _| Err("no route")), Err("no route"));
    assert_eq!(driver.poll_timeout(|_| None), None);
    assert!(matches!(driver.open_bi(4, open), Ok(Some(4))));
    assert!(matches!(driver.open_uni(3, open), Ok(Some(4))));
}
