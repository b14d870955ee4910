# master_program

A local-first mesh node, written in Verus. The library under `src/` holds the
node's logic with its contracts and proofs; `app/` is the HTTP server around it.

- `src/mesh/envelope.rs` — the protocol envelope, its JSON wire form, its
  validation rules and integrity checksum.
- `src/mesh/identity.rs` — node roles, connectivity policies, transmission
  profiles, transport endpoints and peer records.
- `src/mesh/peer_registry.rs` — the known peers, kept in ascending order of id.
- `src/mesh/rate_limit.rs` — exact token buckets: per-peer control and stream
  lanes and a node-wide cap in each direction.
- `src/mesh/stream.rs` — text stream sessions: chunks out of order or twice,
  missing chunks, reassembly, cancellation and timeouts.
- `src/mesh/scene_layers.rs` — the scene state, its layers and patches.
- `src/mesh/transport.rs`, `src/mesh/transports/` — the transport interface,
  the in-memory loopback, the unavailable stubs and the requests and answers
  of the local HTTP transport.
- `src/mesh/engine.rs` — the mesh engine: registration, transport choice,
  duplicate detection, ttl enforcement, rate limiting and peer telemetry.
- `src/api.rs` — the decisions behind the HTTP API.
- `src/text.rs`, `src/platform.rs` — text operations, and the calls into the
  clock, random ids and time formatting.

Each law the library keeps is a public proof function named `law_…` next to
the functions it speaks of.
