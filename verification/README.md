# Vannak

Vannak is an operational knowledge plane for data pipelines: it takes in process events and
data-individual metadata events, keeps a hot index of process state, finds out which Ipto
repository owns the metadata of a data item, and delivers that metadata there through a
durable, idempotent outbox.

The library under `src/` is written in Verus. Each function states in its contract what it
returns and what it changes, over mathematical views of the data, and Verus proves it. The
laws of the library, such as that a segment is read back as it was written, that a replayed
outbox holds what was enqueued, or that a new placement slot draws shards from the others
only, stand as public proof functions at the end of the modules they are about.

## Modules

- `text`, `timestamp`, `hash`, `wire`, `ordered`, `json`: texts, instants, checksums, byte
  formats and ordered collections.
- `process`, `ingest`, `metadata`, `durga`, `event_codec`: process events, their binary form
  and the reduction to process state.
- `data`, `index`, `query`, `runtime`: the indexes, the queries and their distribution over
  shards.
- `sitas_runtime`, `shards`, `shard_runtime`: the same on the shards of the Sitas executor. The
  calls of the executor stand behind trusted functions; what they claim is in their doc
  comments.
- `storage`, `journal`, `discovery`: segments, the journal of process events and the search
  for segments.
- `ipto`, `outbox`, `durable_outbox`, `ipto_adapter`, `background_writer`: payloads for Ipto,
  the outbox and its delivery.
- `placement`, `checkpoint`, `cluster`, `control_error`, `raft_sm`, `rebalance`: placement,
  the control state of the cluster and its replication.
- `service`, `daemon`, `http`, `query_json`, `fanout`, `exchange`, `peers`, `cli`: the service
  and the decisions of the programs around it.
- `kafka_client`, `kafka_ingest`, `load`: the Kafka consumer's decisions and the load test.

What touches files, sockets or brokers, and what waits, is under `app/`. It hands plain values to the
library and takes plain values back: the library frames a record, the program writes and syncs
the bytes, and the library then takes account of the record.
