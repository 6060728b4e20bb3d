# eastmoneyx

Offline source facts for EastMoney macro observations, written in Verus:
typed observations, strict CSV parsing, a fail-closed authorization verdict and
the refusal of every live execution channel. No network client, no endpoint,
no credential.

## Layout

- `src/error.rs` - error classes (`EastMoneyErrorKind`) and `EastMoneyError`.
- `src/text.rs` - character-level helpers (Unicode whitespace and control
  characters, trimming, exact comparison, `;`-separated tokens, `u32`
  digits, decimal text).
- `src/value.rs`, `src/value/observation.rs` - dates, periods, units, source
  codes, the scope guard, the five observation types and the money supply check.
- `src/parse.rs` - the CSV parsers. Records come from the `csv` crate through
  one trusted reader (`read_csv_records`, named by `csv_records`); everything
  after the read (header, cells, identities, checks) is verified against
  `fold_rows` over the rows.
- `src/authz.rs` - the authorization verdict and the execution channel guard.
- `src/pit.rs` - publication semantics.
- `app/lib.rs` - the `f64` face: the decimal reader handed to the parsers as
  `number`, `f64` views of values, and an error type with `Display` and
  `std::error::Error` (via `thiserror`).

Numbers are held as binary64 bit patterns (`EastMoneyValue::Present(bits)`);
each parser takes a `number` function that turns a cell's text into bits, and
the library checks finiteness itself.
