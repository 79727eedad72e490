# openraft

The configuration of a Raft node and the queue of commands from its engine to its runtime, written
and verified with Verus.

- `src/config.rs`: `Config`, its defaults, its validation and its timeouts; `RuntimeConfig`.
- `src/snapshot_policy.rs`: `SnapshotPolicy`, when a snapshot is due, and how a policy is read from
  text.
- `src/byte_size.rs`: how a byte size such as `3MiB` is read from text. `src/byte_size_laws.rs` holds
  what is proved of it beyond the contract.
- `src/engine_output.rs`: `EngineOutput`, the command queue, which merges commits of contiguous log
  ranges. `src/engine_output_laws.rs` holds what is proved of it across several operations.
- `src/command.rs`, `src/sm.rs`, `src/log_id.rs`, `src/type_config.rs`, `src/error.rs`: the types.
- `src/text.rs`: white space and decimal numbers.
- `tests/`: tests of the library.
- `app/`: the command line, the serialized form and the shared switches of a running node, which are
  not verified.

What is taken on trust: `rand` draws a number from the range it is given (`src/type_config.rs`), and
`Duration::from_millis` gives one duration for one number (`src/config.rs`).
