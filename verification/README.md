# miami

Dashboard for `pi` agents running in Ghostty tabs and panes, as a verified
library and a thin program around it.

- `src/` — the library, verified with Verus: the agent registry (reports,
  partial updates, reaping, listing order), ticket and model-name parsing,
  AppleScript quoting and scripts for Ghostty, the text of every part of the
  dashboard, and what each key does.
- `app/` — the `miami` binary: the unix socket server and JSON decoding, the
  ratatui front end, `osascript`, and the `kill(pid, 0)` liveness check. Run
  as `miami-tail` (or with `--tail`) it prints the plain agent table instead.
- `tests/` — the library's tests.
