# near_indexer_client

A pull-based client for NEAR's experimental HTTP indexer endpoint, split into a
verified core and a thin async shell.

- `src/` (verified with Verus) holds every decision: the shard-coverage and
  hash checks of a fetched payload (`payload.rs`), parent links and the shape
  of a reorganisation path (`ancestry.rs`), the poll state machine that says
  what to fetch next and judges each answer (`session.rs`), the client
  configuration that starts polls (`client.rs`), the proved laws of
  polling (`laws.rs`), and the whole ancestry walk against a consistent node
  with the two-step catch-up law (`catch_up.rs`).
- `app/` performs the JSON-RPC calls through near-kit, decodes payloads with
  serde, and drives a `PollSession` until the update is complete.
- `tests/` drives sessions against an in-memory chain with forks, skipped
  heights and missing data.
