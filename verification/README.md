# easy-term

A macOS menu-bar app that runs local dev servers in real PTYs: projects with
a folder, a command and a port, started, stopped and watched from a popover,
kept alive by a background daemon across restarts of the app.

## Layout

- `src/` — the verified library (`easy_term`), checked by Verus. It holds the
  app's logic as plain values and decisions, each with its contract:
  - `project_store` — projects and groups: save, delete, pins, group
    membership, the "was running at quit" flags;
  - `process_manager` — supervision bookkeeping: starts, stops, exits, the
    auto-restart policy with exponential backoff, the scrollback ring buffer,
    output scanning;
  - `group_start` — starting a group's projects in order, each waited on
    for readiness (its port opening, or a grace period) before the next;
  - `shutdown` — stopping a project (SIGTERM, a grace period, SIGKILL) and
    freeing a port, decided step by step;
  - `output` — the first local URL in a process's output, and its error lines;
  - `protocol`, `daemon` — the messages between the GUI and the daemon, the
    replies the daemon's bookkeeping gives, and the client's waiting requests;
  - `error_logger` — diagnostic events, the dedupe of repeated errors, the
    daily log files' names, retention and size limit;
  - `tray` — the tooltip and the running-count badge painted on the icon;
  - `script_detector`, `port_checker`, `resource_monitor`, `env_resolver`,
    `notifications`, `commands` — what the app reads from `package.json`,
    `lsof`, `ps` and the login shell, and what it shows;
  - `text`, `id_map` — the string and map primitives the rest is built on.
  Each module's laws (properties across calls) are public proof functions
  named `law_*`.
- `tests/` — tests of the library on concrete values.
- `app/` — the program around it: Tauri, the Unix socket and its threads, the
  PTYs, files, processes, and the few computations done in floating point.
