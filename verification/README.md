# clipvault

A local-first clipboard history, verified with Verus.

`src/` is the library. It is verified, apart from three small trusted
wrappers: around `blake3::hash`, around reading the clock as an RFC 3339
timestamp (std `SystemTime` and chrono), and around std's `String::from(char)`.
Its modules:

- `db` — the clip table: clips kept in display order (pinned first, then
  newest first), one row per content hash, ids never handed out twice;
  insertion with deduplication, search (`LIKE '%query%'`, paged), pin
  toggling, deletion and retention, each stated over the table's state, with
  the table's laws proved as proof functions.
- `pattern` — the `LIKE` pattern match used by the search.
- `clipboard` — turning clipboard text into a clip (BLAKE3 hash, skipping
  blank and repeated text).
- `config` — parsing global shortcut strings such as `Ctrl+Shift+V`.
- `instance` — the single-instance rule: reading the lock file's process id,
  finding a process id in a process listing, and the decision to run.
- `commands` — the operations the user interface invokes, on plain values.
- `text` — white space, trimming, splitting, binary text order.

`app/` is the Tauri program around it: clipboard access, the SQLite file the
table is persisted to, the settings file, the window, tray and shortcut.
