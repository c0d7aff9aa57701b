# portfolio

A local portfolio manager for crypto, funds and stocks. The rules are a library
verified with Verus (`src/`); the HTTP service around them is ordinary Rust (`app/`).

- `src/asset.rs` — asset ids (`kind:market:SYMBOL`), settlement currency, the checks for
  creating, renaming and deleting an asset, the holdings category filter.
- `src/trade.rs` — trade kind, the checks a trade passes, the tally of an import and the
  idempotence of importing.
- `src/quote.rs` — the quotes of an adapter reply, how a quote is stored, and whether a
  refresh is complete.
- `src/history.rs` — filtering of the latest quotes (the latest per asset is chosen in SQL)
  and grouping of price history by fetch time, with the limit on the number of times.
- `src/query.rs` — the comma-separated parameters, `QueryParams` and `AppState`.
- `src/client.rs` — what the desktop client computes: category code, time field, chart
  window and request path, reply errors.
- `src/number.rs`, `src/text.rs` — integer parsing, trimming and other text helpers.
- `app/` — the Axum server, SQLite storage, the adapter client and the CLI; money amounts
  are floating point and are computed there.
