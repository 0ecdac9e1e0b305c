# poll_driver

A synchronous, poll-based driver for a QUIC endpoint and its connections, for
event loops that bring their own scheduling. The decisions of the driver are
verified with [Verus](https://github.com/verus-lang/verus); the socket and the
protocol implementation stay outside.

- `src/driver.rs`: `PollDriver`, its table of connections and its buffers, and the
  two cycles, `drive` and `flush_transmits`. Each call of these takes what the last
  action led to and returns the next action to perform.
- `src/operations.rs`: streams, closing, statistics, timeouts, new connections.
- `src/drive.rs`, `src/flush.rs`: the cycles as state machines; the contracts of
  `driver.rs` speak of them.
- `src/drive_laws.rs`, `src/flush_laws.rs`, `src/table_laws.rs`,
  `src/sequence_laws.rs`: what holds of whole cycles, of the table, and of operations
  in a row.
- `src/types.rs`: the values that are passed around. `Protocol` names the types of a
  protocol implementation that the driver carries through.
- `src/buffer.rs`: what is taken on trust of the `bytes` crate.
- `app/`: the driver over a UDP socket and `noq-proto`. It performs the actions and
  is not verified. `noq-proto` has to be supplied by whoever builds it.
