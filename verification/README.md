# SwarmOps

An agent swarm for operations data: worker agents read logs, health
reports, incident timelines and metrics, each reports findings, and a
consensus engine merges the findings of several agents into one report.
An HTTP service exposes the swarm.

## Layout

- `src/` is the library, verified with Verus.
  - `models.rs`: findings, tasks, agents, consensus results, request and
    response bodies. Confidences and rates are fixed-point millionths.
  - `text.rs`: the character-level operations the agents use (search,
    counting, prefixes, joining, splitting into lines), with their
    specifications.
  - `agents/`: the local analysis of each worker agent and what a model's
    answer adds to it.
  - `buckets.rs`, `swarm/consensus.rs`: greedy clustering of similar
    findings, merging, ordering, and the laws the consensus report obeys.
  - `swarm/state.rs`: the tables of tasks, agents, findings and consensus
    results, keyed by id.
  - `swarm/manager.rs`: which workers a task goes to, and what completing a
    task does to the state.
  - `services/task_queue.rs`: a FIFO queue that refuses duplicates.
  - `routes.rs`: what each HTTP endpoint decides.
  - `ids.rs`: fresh ids and the clock.
- `app/` is the service around it: the HTTP server (axum), the client of the
  Messages API (reqwest), the JSON forms of the library's types (serde), the
  concurrent run of the workers (tokio) and the statistics over metric values,
  which are floating point.
- `tests/` runs the library on concrete values.
