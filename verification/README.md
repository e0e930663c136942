# view_latency

Tools for measuring how long a message appended to a SpacetimeDB database
takes to come back to a client, batch after batch, while the client is
subscribed to a pass-through view of the table, to the table itself, or to
nothing.

## Layout

- `src/` — the library, verified with Verus:
  - `stats.rs`: sorting latencies (a verified merge sort), their total and
    mean, the median and 99th-percentile ranks, and the laws that the
    statistics obey (ordered percentiles, mean between the extremes, results
    independent of the order of the samples).
  - `pending.rs`: `PendingInserts`, the inserts sent and not yet confirmed,
    confirmed oldest first, with the latencies of the confirmed ones.
  - `roundtrip.rs`: `RoundtripTimer`, the latencies of one batch.
  - `batch.rs`: message contents (`batch{b}msg{i}`, `batch{b}_message{i}`),
    batch totals and completion.
  - `message.rs`: the `messages` row and the subscription queries.
  - `clock.rs`: the monotonic clock, behind trusted wrappers.
- `tests/` — tests of the library on concrete values.
- `app/` — the SpacetimeDB module (table, view, reducer) and the two
  clients. The clients use the bindings `spacetime generate` writes into
  `app/generated/`.
