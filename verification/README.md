# r5r_launcher

The logic of the R5R community launcher, verified with Verus, and the
Tauri application around it.

- `src/` — the library: channel and mirror selection, manifest planning,
  download resume and retry decisions, install/update steps, offline pack
  layout checks, config-file parsing, previews, rewriting and backups of
  the two games' settings, the matchmaking script fix, launch-option
  checks, crash-report classification, the updater's helper script.
  Every function carries a contract; the `law_*` proof functions state
  properties that span calls.
- `tests/` — tests of the library on concrete values.
- `app/` — the application: window and commands, HTTP, the file system,
  processes, archives and the launch-option catalog (which holds
  fractional values).
