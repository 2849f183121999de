# backend

The decision logic of a small household-inventory web service (inventory
items, users, and bundles of items requested from the inventory), written in
Verus and verified.

Every request handler of the service talks to SQLite inside a transaction and
decides, after each database call, what to do next and which HTTP status to
answer with. Those decisions live in `src/` as state machines with exact
contracts: fed the outcome of the last call, a machine names the next action.
The handlers in `app/` perform the actions with sqlx and hand the outcomes
back.

- `src/status.rs` — HTTP statuses and the mapping of database failures to them.
- `src/outcome.rs` — what a database call reported.
- `src/batch.rs` — create, update and delete of inventory items and users.
- `src/grouping.rs` — grouping of a bundle's lines by item.
- `src/bundle_write.rs` — create and update of a bundle: checks against the
  available quantities, writes, fulfillment, read-back.
- `src/read.rs` — listing inventory, users and bundles, showing a bundle, and
  deleting a bundle that is not fulfilled.
- `src/item.rs`, `src/user.rs` — the stored enums and the user types.

The public `lemma_*` proof functions state properties of these machines,
over the outcomes that the database reports: a batch commits only when every
statement was accepted, and an error answer commits nothing; no bundle is
written before every check passed, and a bundle write whose calls all have
their accepting outcome succeeds; a fulfilled bundle is neither updated nor
deleted; and so on. What the SQL itself computes (the quantities left, which
bundles are listed, the rows stored) is not stated in `src/`.

Quantities are floating point and stay in `app/`: it tells the bundle machine
whether each line's quantity is positive and whether the total requested of an
item exceeds what is available. The SQL migrations that the server runs at
start-up are read from `./migrations`.
