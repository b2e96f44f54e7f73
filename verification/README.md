# fabric_lib

Transfers over remote direct memory access, with their decisions verified by Verus.

- `src/domain_group` divides transfer requests into writes for the domains of one group and
  counts their completions.
- `src/worker` holds what the thread of a group does in each step, when it may sleep, and the
  words of memory that it watches.
- `src/fabric_engine` decides which worker carries an operation, bounds the writes that wait on
  a domain, and admits ordered write batches together or not at all.
- `src/transfer_engine` gives every operation an id and finds whom to call when it is over.
- `src/verbs` chains the work requests of one batch.
- `src/sharding.rs` and `src/segments.rs` hold the arithmetic of ranges and of gathered segments.

Contracts speak of a domain through the list of calls that it has served (`RdmaDomain::history`).
What is trusted is in `src/tables.rs` (maps of the `dashmap` crate), `src/worker/queue.rs` (a
queue of the `crossbeam-channel` crate) and `src/worker/poller.rs` (the clock).

`app/` is ordinary Rust: threads, queues, locks, callbacks and the traits that a platform
implements. Before it calls a function of the library that has a precondition, it tests it with
`can_submit`, `can_answer` and the like.
