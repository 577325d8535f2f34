# orlando_cluster

The decision core of a virtual-actor cluster, written in Rust and verified with Verus.

- `src/` is the library. It decides where grains live, who is a member, what becomes of a
  call, and how clusters watch over each other. Every function states what it returns or
  changes, and the laws of the whole (what the ring keeps when silos come and go, what
  epochs promise, what gossip may change) are public proof functions beside the code.
- `app/` runs it: gRPC and TCP services, tasks, clocks, HTTP health checks, SQLite, and typed
  messages.
- `tests/` exercises the library on concrete values.

What the library takes on trust is marked `#[verifier::external_body]`: the maps of `dashmap`,
the draws of `fastrand`, the identifiers of `uuid`, the frames of `bincode`, the JSON of
`serde_json`, and of the standard library the wall clock and `String::leak`.
