# azoth-balancer

A load balancer for JSON-RPC endpoints. Requests go to the endpoint with the highest priority that
is healthy, in no cooldown and has room under its rate limit. Endpoints that fail or refuse requests
are left alone for a while, longer each time, and come back when they pass a health check. The
configuration can be reloaded while the balancer runs.

- `src/` is the library. It decides and keeps state, and it is verified with Verus: every function
  has a contract, and `src/laws/` proves what follows from the contracts for the library as a whole.
- `app/` is the program around the library: the command line, the HTTP interface, the HTTP client,
  the clocks, the configuration file, the metrics and the background tasks.
- `tests/` runs the library on concrete values.

What the library takes on trust stands in a few functions marked `#[verifier::external_body]`: the
token buckets of `ratelimit_meter` in `src/limiter.rs`, parsing and quoting by `serde_json` in
`src/rpc.rs`, how `reqwest` shows an HTTP status in `src/forwarder.rs`, and how the standard library
shows a length of time in `src/shutdown.rs`. The moving averages are taken in floating point by the
callers, who hand the library a function for it.
