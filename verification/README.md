# lumen

A session service for agents and humans: it supervises isolated browser,
desktop (Wayland) and terminal sessions, serves a live view of each to a
human, and keeps an inbox of human feedback for the agents.

The decisions of the service are a library verified with Verus (`src/`):

- `protocol`, `backend`, `session`: the framed cell-diff protocol that a
  ratatui app speaks, the backend that turns draws into frames, and the
  routing of the service's input on the app's side.
- `grid`, `pty`: the authoritative terminal grid, its text and snapshots,
  and the bytes a real terminal expects for keys and mouse reports.
- `supervisor`: session names, paths and commands, the session registry
  (reuse, conflicts, capacity, provenance), launch plans and profile
  directories.
- `desktop`: the screen-capture loop of a headless Wayland output, pixel
  conversion and frame encoding.
- `cdp`, `view`, `http`, `config`, `feedback`, `accessibility`, `client`:
  tabs, viewer control, request checks and error answers, navigation policy,
  feedback bounds, accessibility trees, and the command-line client's
  requests and output.

`app/` is the program around it: processes, sockets, the HTTP server, the
database, the browser connection and the Wayland client. `tests/` exercises
the library.
