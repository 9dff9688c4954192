# nox_ingestor

Reads the events of the NOX compute contract from an EVM chain, groups them by
transaction into messages, and tracks how far it has read.

- `src/` is the verified library (Verus): the error classifier of provider rejections,
  the range-bisecting log fetch (as a state machine) and the receipts fallback, log
  parsing, batch assembly (ordering and grouping), message checksums and subjects, the
  bounded message buffer, the NATS stream-setup and connection-state decisions, the sync
  state, the ingestion loop's decisions, and the health decision.
- `app/` is the binary around it: configuration from the environment, the RPC provider,
  the state file, the HTTP handlers and the polling loop.
- `tests/` exercises the library.

Notes on the layout:

- Events are grouped by transaction in a list of groups searched in order, not in a hash
  map keyed by the transaction hash: with a `String` key Verus proves nothing of a map's
  contents, while the list's contents are proved group by group. Groups that tie on
  block and first log index come out in order of first appearance.
- The binary has no NATS client (connect, stream setup, publishing), no metrics
  endpoint, no OpenTelemetry setup and no secret-file configuration source: the crates
  they need would take the dependency set past the number of packages this build can
  hold. The library's NATS decisions (`stream_setup_action`, `desired_stream`,
  `state_after_event`, the message buffer, subjects and checksums) are verified and
  tested, and wait for that client.
- For the same reason the RPC provider is built with alloy's generic `connect`; the
  HTTP transport behind `connect_http` needs alloy's `reqwest` feature.
