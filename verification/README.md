# payments_engine

A streaming payments engine: it applies deposits, withdrawals, disputes,
resolves and chargebacks to client accounts and reports the final account
states, sorted by client, with amounts written to four decimal places.

The library is written in Verus and proved against its contracts.

- `src/amount.rs` — `Amount`, a decimal held as mantissa and scale. Arithmetic,
  comparison, rounding and formatting are done by `rust_decimal`, behind a few
  trusted wrappers whose contracts state what the crate's source does.
- `src/model.rs` — the records: transaction rows, stored transactions, accounts
  and report rows.
- `src/ledger.rs` — the engine's rules over exact values, the state invariant
  (every account's `held` is the sum of its disputed deposits, no retired id is
  still stored, ...) and the laws of the engine, proved over these rules.
- `src/engine.rs` — `PaymentsEngine`: the state in hash maps, one function per
  transaction type, the report, and the invariant check. Each step is stated
  exactly over the decimals it computes, and shown to follow the ledger rules
  wherever its arithmetic needs no rounding.
- `app/` — the command-line program: reads the CSV with `csv` and `serde`,
  feeds the rows to the engine, and writes the report.
- `tests/` — scenario tests.

Usage: `payments_engine transactions.csv > accounts.csv`.
