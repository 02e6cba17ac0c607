# milli_http

HTTP/1.1 and HTTP/2 (with HPACK) as state machines that do no I/O, and a server
manager that runs TLS, cleartext and QUIC connections over them. All buffers and
tables have fixed capacities. The library is written and verified in Verus: every
function states what it does in its contract, and the laws of the library are
proved beside it.

## Layout

- `src/hpack/`: header compression (integers, Huffman strings, static and dynamic
  table, blocks). `laws.rs`: what is encoded is decoded again.
- `src/h2/`: HTTP/2. `model.rs` says what a connection does as functions from
  state to state; `connection.rs` and `receive.rs` do it; `laws.rs` holds flow
  control, streams, events and timeouts, and `delivery.rs` that what one end sends
  the other receives.
- `src/http1/`: HTTP/1.1, laid out in the same way.
- `src/https1.rs`, `src/h2_tls.rs`: both protocols over a TLS session.
- `src/secured.rs`: what holds of HTTP over any TLS session.
- `src/server/`: the manager of many connections, and the runner that drives it
  over sockets, one cycle at a time. The laws of the manager stand in `laws.rs`,
  `history.rs`, `order.rs` (events), `limits.rs` (numbers of connections) and
  `timers.rs`, those of the runner in `turns.rs`, `output.rs` and `ends.rs`.
- `src/transport.rs`, `src/tls.rs`, `src/quic.rs`: what the library expects of
  sockets, clocks, TLS sessions and QUIC servers.
- `src/http/`: header lists and what the protocols share.
- `app/`: the runner under an async executor.
- `tests/`: tests on concrete values.

## Trust

Header lists are kept in `heapless::Vec`. Its functions stand behind wrappers in
`src/http/headers.rs`, each of which says what it takes on trust. The traits in
`transport.rs`, `tls.rs` and `quic.rs` are contracts for those who implement them.
