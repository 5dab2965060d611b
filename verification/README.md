# ledger

A personal ledger service: users sign up and log in with a password, then
record transactions (category, transactee, note, date, decimal amount, tags)
and transaction templates, and query them: filtered and paged listings, newest
first; monthly income and expense totals; the balance; the categories, tags
and transactees in use, the transactees ordered by how often they occur.

The library (`src/`) is written in Verus. Its functions are proved against
their contracts, except for a few small functions marked
`#[verifier::external_body]` that call `rust_decimal`, `chrono`, `argon2`,
`rand`, `jsonwebtoken`, `base64` or the standard library (the clock, boolean
parsing): their contracts state what those calls are taken to do, and the
proofs rest on them.

- `amount`, `date`: decimal amounts and calendar days, held as plain parts;
  the arithmetic and calendar checks are those of `rust_decimal` and `chrono`.
- `repo`: the records, the in-memory stores of users, transactions and
  templates, and the laws that relate their operations (what a read gives
  back after a create, update or delete; who may see what; listing order;
  monthly totals ordered by month).
- `auth`: Argon2 password hashes, HS256 bearer tokens and the decisions of the
  sign-up and log-in endpoints; `user`: password change and account deletion.
- `config`, `honeycomb_config`, `env`: the service configuration read from a
  snapshot of the environment.
- `error`: the endpoint errors and their HTTP status codes.

`app/` is the HTTP server around the library (actix-web, JSON bodies,
configuration file, token secret on disk); it takes no decision of its own.
