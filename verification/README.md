# taskflow

Task management core: tasks, projects and users, the status workflow,
permission rules, filtering with a listing cache, project statistics and
notifications, written in Verus with the behaviour of each operation stated as
a contract and proved.

Layout:

- `src/domain.rs`: data types, errors and their texts, the status workflow.
- `src/engine.rs`: the single-store engine (create, move, assign, delete,
  filter, members, users, statistics).
- `src/services/`: the same operations split into task, project and user
  services, and the engine assembled from them.
- `src/deletion.rs`: what a recursive deletion removes.
- `src/query.rs`, `src/stats.rs`, `src/table.rs`, `src/text.rs`: filtering and
  ordering, counting, the keyed table, text search.
- `src/ids.rs`, `src/clock.rs`: UUIDs (uuid) and the current time (std),
  behind small trusted wrappers.
- `src/analytics.rs`, `src/notifications.rs`, `src/storage.rs`,
  `src/scaffold.rs`: event collection, notification sinks, storage names and
  the service interfaces.
- `app/`: JSON files on disk (serde, serde_json), notification hooks, and the
  completion rate.
- `tests/`: tests of the library.
