# oxide_raft_log

A Raft-style replicated log with ternary entry status, written and verified in
Verus. Entries are committed (`+1`), appended (`0`) or conflicting (`-1`). The
log resolves conflicts by term, advances its commit index by majority quorum, can
be compacted, and tracks the election state of its node.

- `src/entry.rs`: entries and their status
- `src/model.rs`: the mathematical state of a log, what holds of every log, and
  what each operation does to it
- `src/log.rs`: the executable `ReplicatedLog`, proved against the model
- `src/quorum.rs`: counting acknowledgements
- `src/laws.rs`: properties that relate the operations to each other
- `tests/`: the log on concrete values

Indices start at 1 and go on counting after compaction, also when compaction
leaves no entry.
