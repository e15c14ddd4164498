# latte_ipc

The messages that a benchmark host and its driver adapters exchange over a Unix
socket, and the logic on both sides of it, verified with Verus.

- `src/ipc`: the host's side. Frames, requests and replies of the CQL and the
  Alternator protocols, the requests that wait for their responses, sessions.
- `src/driver_adapter`, `src/cql_adapter`: the adapter's side. Requests are read,
  planned and bound; results are written back.
- `src/scripting`: what scripts hand to DynamoDB operations, batches with their
  retries, prepared operations, request compression.
- `src/exec`: how a workload goes on after each call of a script.
- `src/value.rs`, `src/vint.rs`, `src/number.rs`, `src/text.rs`, `src/wire.rs`,
  `src/dash.rs` and their neighbours: CQL values and the buffers, texts and maps
  that the rest is built from.

Laws that relate several functions, such as that a decoded message is the one that
was encoded, are public proof functions whose names begin with `law_`.

`app/` holds the sockets, drivers, containers and scripts around the library;
`tests/` runs the library with the real crates.
