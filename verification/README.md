# grok_tokens

Token usage of Grok sessions, computed from the logs that Grok keeps on the machine, and profiles of
Grok accounts. The library is written in Rust and verified with Verus.

- `src/` is the library. It works on values that have been read: lines of logs, JSON values, the
  contents of the files of the accounts. It hands back totals, lines to print, values to write and
  the changes to make, in their order.
- `app/` is the program `grok-tokens`: the command line, the files, and amounts in dollars.
- `tests/` are the tests of the library.

| Module | What it holds |
|--------|---------------|
| `text`, `order` | texts as sequences of characters, orders, sorted sets, a stable sort |
| `json`, `parse` | JSON values, and how `serde_json` reads them |
| `clock` | UTC days and times, by `chrono` |
| `usage`, `pricing`, `bucket` | usage records in a log line, list prices, totals |
| `session`, `daily`, `select` | what a session and a day add up to, and which sessions are shown |
| `double`, `format` | decimal texts of doubles, colours, token counts, tables |
| `limit` | the quota of an account |
| `identity`, `names`, `store` | who a login belongs to, names of profiles, the files as they were read |
| `accounts`, `account_laws`, `rows` | what the account commands do, what they keep, the known accounts |
| `report`, `overview`, `account_report` | what is printed |
| `places` | where files lie, which sessions are looked at, whether colours are used |

A total that does not fit its word is an error (`CountOverflow`); so is a text that would be cut
inside a character (`CutError`).
