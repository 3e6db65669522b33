# ccusage

Usage accounting for coding agents, as a verified library.

- `src/fx`, `src/prime.rs`, `src/paths.rs`: where agents keep their data, and how the ledger of fx
  becomes entries, each generation once.
- `src/all`: the unified reports: rows, documents, tables and the summary view.
- `src/sync`: snapshots of a machine, their merge into one report, and publishing through git.
- `src/tally.rs`, `src/sort.rs`, `src/order.rs`, `src/names.rs`, `src/index.rs`: grouping, stable
  sorting and the order of texts.
- `src/text.rs`, `src/figures.rs`, `src/cost.rs`, `src/json.rs`, `src/table.rs`: texts, short token
  counts, amounts, documents and tables as values.

Amounts are kept as the bit patterns of the numbers they were recorded as. The library compares
them with zero and keeps the terms of a sum in order; `app/` adds them.

The table of display names (`agent_label`) is not complete: the command-line agent of the opus and
sonnet models is shown by its own name in lower case, not by a capitalised one.

`app/` holds what is around the library: files, git, JSON text and the terminal. `tests/` runs the
library on concrete values.
