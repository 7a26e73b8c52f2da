# status_monitor

The storage rules of an uptime monitor, verified with Verus: targets and their quotas, check
results and the figures drawn from them, incidents and their lifecycle, heartbeat monitors,
link codes, notification channels, org variables, organisations and their members, the text of
the queries that the results database is sent, and the small helpers beneath.

- `src/` is the library. Every function is a function of plain values with a proved contract,
  but for the trusted wrappers around other crates and `std`, whose contracts are taken on
  trust: `sha256`, `hex_encode` and `ct_eq` in `crypto`; `fresh_id`, `random_id` and
  `uuid_string` in `ids`; `utc_now` in `time`; `push_char` and `to_lowercase` in `strings`;
  `parse_url` in `telegram::client`; `empty_client`, `with_url`, `with_database`, `with_user`,
  `with_password` and `with_setting` in `storage::clickhouse::client`. Laws that
  relate several functions are public proof functions whose names start with `law_`.
- `tests/` runs the library on concrete values.
- `app/` is ordinary Rust around it: Postgres, ClickHouse and the chat bot. It reads and
  writes; what is decided is decided in the library.

Modules of note:

| module | what it holds |
| --- | --- |
| `storage::memory::sink` | results in memory: pages, uptime, rollups, percentiles, outages |
| `storage::memory::targets` | targets in memory: filters, quotas, bulk changes, tag counts |
| `storage::incident_ops` | the incident state machine's store, its timeline and paging log |
| `storage::heartbeats` | tokens, signals, and the runs that they time |
| `storage::clickhouse` | the migration splitter, the rows and the queries of the results database |
| `storage::postgres_secrets` | sealing, opening and redacting the credentials of a check |
| `telegram` | webhook secrets, update classification, token scrubbing |

An instant is a `time::Timestamp`, nanoseconds since 1970 as an integer; an id is a `u128`.
Every method that reads the clock or draws an id has a sibling whose name ends in `_at`, which
takes them as arguments.
