# clippy_native

A desktop mascot that plays animated WebP clips from a pack's state graph,
driven by the state of coding-assistant sessions.

- `src/` is the verified library (Verus):
  - `pack` — the pack's graph (edges, conditions, videos) and WebP paths;
  - `engine` — condition evaluation and the choice of transitions and loops;
  - `anim` — decoding, premultiplied `ARGB32` frames, frame timing;
  - `controller` — the mascot's state machine (`App`);
  - `state` — the assistant state and the aggregation of session reports;
  - `settings` — the saved window position and sound settings;
  - `text` — string helpers (trim, decimal `i32` parse and format).
- `app/` is the GTK program around it: window, drawing, file and process I/O,
  the JSON pack loader, and the session-file watcher.
- `tests/` runs the library on concrete values.
