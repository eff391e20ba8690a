# scheduler

The decision logic of a training-job scheduler, verified with Verus.

A scheduler cycle cleans up after dead nodes, stale, preempted and orphaned jobs, and then
places the queued jobs on clusters. All data sits in repositories that are reached
asynchronously, so the logic is written as machines: each asks for one request at a time,
takes the reply, and ends with a result.

- `src/model.rs`, `src/time.rs`, `src/error.rs`: jobs, queues, nodes, timestamps, failures
- `src/protocol.rs`: requests and replies
- `src/script.rs`: scripts, the meaning of an operation as a tree of questions and answers
- `src/dialogue.rs`: the common shape of the machines that run a script
- `src/dead_nodes.rs`, `src/stale_jobs.rs`, `src/preempted_jobs.rs`, `src/orphaned_jobs.rs`,
  `src/placement.rs`: the operations, each with its script and its machine
- `src/service.rs`: the service and the cycle that joins the operations
- `src/log.rs`, `src/laws.rs`: what happens in a run, and what holds of every run
- `src/user.rs`: the permission rules of the user service
- `app/`: the asynchronous services around the library

The library reads the clock and subtracts instants with `chrono`; those two calls, in
`src/time.rs`, are trusted. Everything else is proved.
