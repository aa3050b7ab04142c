# rs_raft

The core data structures of a Raft consensus library, written in Verus and
proved against their contracts.

Layout of `src/`:

- `eraft_demo.rs` (also reachable as `eraftpb`): the wire types (entries,
  hard state, configuration state, snapshots, messages) and the encoded size
  of an entry.
- `log_unstable.rs`: the tail of the log that has not reached stable storage.
- `storage.rs`: the `Storage` trait and the in-memory `MemStorage`.
- `raft_log.rs`: the replicated log over a storage and its unstable tail.
- `progress.rs`: per-peer replication progress, the in-flight window, and the
  voter/learner set with quorum computations.
- `read_only.rs`: bookkeeping for linearizable read-only requests.
- `config.rs`: node configuration and its validation.
- `util.rs`: size limiting of entry batches.
- `fx.rs`: the hash collections the progress set and read tracking keep.
- `raft.rs`, `errors.rs`, `prelude.rs`: roles, errors and re-exports.

Laws of the library (what every operation keeps, what a read gives back of a
write) stand as public proof functions beside the code they speak of.
Tests under `tests/` run the library on concrete values.
