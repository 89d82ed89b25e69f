# instring

String interning with a verified core. An `Interner` keeps one shared
allocation per distinct string in a `dashmap::DashMap`, together with the
number of live `InString` handles of it and running statistics.

- `src/interner.rs`: `Interner`, `InString`, the `Intern` trait, and the
  statistics laws for each operation.
- `src/table.rs`: the `DashMap` and the outside calls made on it.
- `src/stats.rs`: the wrapping statistics counters.
- `src/sums.rs`: sums over the table's entries.
- `src/laws.rs`: laws that relate interning and releasing.
- `app/lib.rs`: one process-wide interner behind a lock, and a handle type
  that releases itself on drop and implements the usual string traits.
