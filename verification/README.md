# openobserve (verified core)

A Verus-verified library holding two pieces of OpenObserve's logic:

- `src/select.rs`, `src/distinct.rs`: the distinct-value collector over a
  tantivy string fast field. The segment collector records the distinct term
  ordinals of the matched documents and keeps the value-extreme `limit` of
  them (smallest when ascending, largest when descending), proved against
  `is_value_extreme`; only those ordinals are resolved to text.
- `src/org_cleanup.rs`, `src/org_grouping.rs`, `src/org_worker.rs`,
  `src/text.rs`: the organization-deletion plan (fixed steps and their order,
  per-stream sub-steps, reading a stored step name back), the batching of
  pending tasks by organization in step order, and the per-organization
  worker as a state machine whose every run finishes and which runs a step
  only after its earlier steps are done and the task is claimed.
- `src/stream_purge.rs`: the deletion of one stream's data as a state
  machine: files are deleted in chunks of at most a thousand, objects before
  records and in order, and the schema goes only once a listing is empty.

`app/` holds what Verus does not see: tantivy's `Collector` traits on the
verified collector, and the asynchronous worker that performs the storage
calls and feeds their outcomes back to the state machine.
