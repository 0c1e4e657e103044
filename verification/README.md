# questdb_sink

A sink that streams committed entity changes to QuestDB over the InfluxDB Line Protocol.

* `src/` is the library, verified with Verus: which deployments and entity types are exported, the
  bounded queue to the background writer, the writer's decisions (connecting, backoff, counting),
  and the rows that the changes of a job make in the client's buffer.
* `app/` connects, flushes, sleeps, logs and reads the config section, and records the columns that
  hold a double.
* `tests/` runs the library against the QuestDB client's real buffer.

The contract is best-effort. Submitting never blocks: when the queue is full, when the database
cannot be reached or when a job cannot be written, its rows are dropped and counted. Removals are
written as tombstone rows; rows of reverted blocks stay.
