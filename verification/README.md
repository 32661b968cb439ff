# connector_utils

Utilities that connectors share when they read agent transcripts, verified with Verus.

- `src/timestamp.rs`: timestamps in milliseconds, from numbers, numeric texts and dates
- `src/double.rs`: exact arithmetic on double-precision numbers, given by their bit patterns
- `src/content.rs`: message content as plain text
- `src/invocations.rs`, `src/types.rs`: tool and skill invocations
- `src/files.rs`: which files to read again
- `src/json.rs`: the JSON values that all of these work on
- `app/`: the same functions on `serde_json` values and on paths

Reading a text as a double is left to the caller of `parse_timestamp`; dates are read by
`chrono`.
