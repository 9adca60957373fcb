# sys_monitor

The verified core of a terminal system monitor (CPU, memory, network and disk
graphs, and a sortable, searchable process table).

- `src/` is the library, verified with Verus:
  - `metric` — capped sample histories (the newest 1024 samples are kept);
  - `procs` — process rows, the stable table sort and the search filter;
  - `app` — tabs, cursor, action menu, sorting and re-selection;
  - `keys` — what each key press does;
  - `graph` — the glyph cells of the filled-area graphs;
  - `collect` — per-tick deltas, network and disk totals and headlines;
  - `ui` — thresholds, table window and titles, line-graph points;
  - `text` — decimal digits and the exact rendering of byte counts.
- `app/` is the program around it: terminal setup, the event loop, reading
  the operating system (sysinfo, battery) and drawing with ratatui.
- `tests/` runs the library on concrete values, and checks the integer
  renderings against Rust's float formatting.
