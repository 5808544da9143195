# secs_sim

The core of a SECS/GEM simulator, written in Verus: SECS-II items and their
SML text, the message catalog (with SMD import), the editable body tree,
flow graphs and the decisions of their scheduler, reply rules, the bounded
message log, and the session manager with its snapshots and scenarios.

## Layout

- `src/` — the verified library. Every public function carries a contract;
  the laws that span several functions are public proof functions:
  - `sml_laws.rs`: SML text written for an item reads back as that item;
  - `tree_laws.rs`: the body tree shown for an item converts back to it;
  - `catalog.rs`, `session.rs`, `log.rs`: what a read gives back after an
    upsert or a removal, what a restore gives back of a snapshot, which log
    entries are kept;
  - `clock.rs`: the calendar date of a moment, stated as a day count.
- `tests/` — tests on concrete values.
- `app/` — what stays outside the proofs: JSON shapes (serde), files,
  sockets and clocks, the float comparison of branch values, the
  threads that run flows and rules against a live link, and the open,
  close, send and receive paths of a session (`link.rs`), with the link's
  own work behind a trait.

Outside crates: `roxmltree` parses SMD documents and `uuid` makes fresh ids,
both behind small trusted wrappers in `src/`; `serde` and `serde_json` serve
`app/` only.
