# hypr_workspace_history

A daemon's core for per-monitor most-recently-used workspace cycling under
Hyprland, written in Verus.

`src/` is the verified library:

- `history` — the history of (monitor, workspace) entries, the per-monitor
  list of workspaces, and how an entry is recorded;
- `monitors` — Hyprland's monitor report, and how a report is recorded;
- `session` — the daemon state, the cycling session that freezes the
  history, and the cycle, commit and cancel requests;
- `protocol` — Hyprland events that call for a refresh, `hyprctl` dispatch
  arguments, and the command-socket requests;
- `paths` — where the sockets and the state file live;
- `text` — prefix tests, trimming and integer text.

`app/` is the program around it: command line, Unix sockets, the event
thread, `hyprctl` processes and the JSON state file.
