# propagators_chirho

Propagator networks over partial information, verified with Verus.

Cells hold partial information that only grows by merging (a lattice join);
propagators read cells and refine them; schedulers decide which propagator
runs next; search chooses among alternatives (amb) with chronological or
dependency-directed backtracking; nodes of a distributed network exchange
cell updates that merge without conflict.

## Layout

- `src/` — the verified library. Its functions carry `requires` /
  `ensures` contracts proved by Verus, except a few small wrappers, marked
  `external_body`, around the standard library's clocks, random hasher
  seeds and `String::push`, whose contracts are trusted.
  - `lattice_chirho`, `finite_domain_chirho`, `sorted_chirho`,
    `domain_laws_chirho`: lattices of partial information and finite integer
    domains, with the lattice laws proved.
  - `fd_propagators_chirho`, `cardinality_chirho`: finite-domain constraints
    (all-different, ordering, element, table, circuit, cumulative,
    cardinality).
  - `cell_chirho`, `generic_cell_chirho`, `scheduler_chirho`,
    `propagator_chirho`: cells, networks run to a fixpoint (unless the run
    count reaches its maximum first), and FIFO, incremental and priority
    schedulers, each of which logs the propagators it takes off its queue.
  - `search_chirho`, `name_set_chirho`: amb choice points, backtracking
    search (complete up to its backtrack limit), dependency-directed search
    with nogoods that record the values chosen (complete when the check
    blames honestly),
    first-fail and dom/wdeg variable ordering, Luby restarts.
  - `algebra_chirho`: semigroups, monoids and join-semilattices.
  - `network_chirho`, `distributed_chirho`: one node of a distributed
    network as a state machine, and durable cell states.
  - `visualization_chirho`, `text_chirho`: traces, snapshots and their JSON
    and DOT renderings.
  - `ledger_chirho`: transactions and blocks.
  - `laws_chirho`: properties that span several operations.
- `tests/` — tests run against the compiled library.
- `app/` — what computes with floating-point numbers or does network I/O,
  built on the library: numeric intervals, the numeric constraint system
  (interval constraints, introspection, checkpoints), float-valued heuristics, the
  ledger of accounts, and networks over in-memory and WebSocket transports.
