# isbn_checksum

Check-digit validation for ISBN-10, ISBN-13, EAN-13 and UPC-A codes, with
every function proved against its contract by Verus.

- `src/text.rs`: separators, the cleaning of input, decimal digits.
- `src/isbn10.rs`: the mod-11 ISBN-10 scheme, with its `X` check digit.
- `src/mod10.rs`: the mod-10 schemes of ISBN-13 / EAN-13 and UPC-A.
- `src/dispatch.rs`: `check` and `compute`, which pick the scheme by length.
- `src/kinds.rs`: the result and error types, with their user-facing texts.
- `src/laws.rs`: properties of the library as a whole (completed codes
  check out, the reported digit repairs a code, separators never matter,
  a single wrong character or an ISBN-10 transposition is always caught).
- `app/main.rs`: the command-line front end.
