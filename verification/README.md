# kivo

A Redis-compatible in-memory key-value server whose storage engine, command
layer, session rules and request framing are verified with Verus.

## Layout

- `src/` — the verified library.
  - `store.rs`, `entry.rs`, `strmap.rs`: the sharded store, its entries (value,
    expiry, last use) and the string-keyed map they live in; LRU eviction per
    shard; lazy and active expiry.
  - `strings.rs`, `keyspace.rs`, `hashes.rs`, `lists.rs`, `sets.rs`,
    `zsets.rs`, `zorder.rs`: the operations on each kind of value; sorted-set
    scores are `f64` bit patterns, ordered as the floats are.
  - `commands.rs` and `cmd_*.rs`: one protocol command at a time, from its
    words to its reply.
  - `session.rs`: authentication, MULTI/EXEC/DISCARD and the connection
    commands, as a step function from a command to what the connection does.
  - `frame.rs`, `resp.rs`: reading request lines and writing RESP replies.
  - `snapshot.rs`: what is saved and what is loaded back.
  - `laws.rs`, and the lemmas of `glob.rs`: properties that relate several
    operations (read after write, transactions, persistence round trip, ...).
- `app/` — the server around it: command-line options, the TCP loop, the
  JSON snapshot file, and the text form of sorted-set scores.
- `tests/` — tests of the library on concrete values.
