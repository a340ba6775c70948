# cex_ping

A ping/pong latency probe between a mock client and an agent, over TCP, with
protobuf messages (`Ping`, `Pong`, and `ClientMessage` holding one of them).

`src/` is the library, verified with Verus:

- `varint` — the varint bytes of the protobuf wire format, stated as spec
  functions, and the calls into quick_protobuf that read and write them.
- `buffer` — what writing into a byte buffer leaves there.
- `reader` — the read position and the reads (tags, values, unknown fields).
- `codec` — the `MessageRead` / `MessageWrite` traits and nested messages.
- `pb::message` — the messages, their decoding and encoding; `pb::util` —
  `decode_msg` / `encode_msg`; `pb::roundtrip` — decoding an encoding gives
  the message back, and later fields win when encodings are concatenated;
  `pb::embedding` — decoding is unchanged by bytes around a message, and an
  unknown field before or after a message is skipped.
- `probe` — frames (a four-byte big-endian length before the message) and the
  delays that client and agent log.
- `util` — the microsecond timestamp.

`app/` holds the program: the command line, the sockets, the tasks and the logs.
