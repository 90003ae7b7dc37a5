# zephost

The task queue behind the Zephost beta dashboard, as a Verus library with
its web service around it.

- `src/` is the verified library: the records (`models`), text rules
  (`text`), the in-memory queue with its accounts, sessions and rate windows
  (`state`, on top of `strmap`), listing and CSV export (`listing`), tokens,
  password hashing and the sign-in decision that both storage modes use
  (`credentials`), settings, the clock, encryption, the worker's decisions
  and the JSON text of its output (`worker`), and properties that span
  operations (`laws`).
- `app/` is the service: the actix-web routes, the shared store with its
  PostgreSQL mode (queries only; the decisions come from the library), event
  broadcast and webhooks, and the worker loop (`zephost worker`).
- `tests/` runs the library on concrete inputs.
