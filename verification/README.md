# uvcleaner

A terminal tool that lists the Python projects under `~/Development` whose
`.venv` has not been modified for 30 days, shows how much space each
environment takes, and deletes the environments the user marks.

Layout:

- `src/` — the verified library.
  - `model.rs`: projects, the application state and its mathematical model,
    keys and effects.
  - `app.rs`: the key-handling state machine, scrolling, and how a deletion
    changes the state; `app_laws.rs`: properties proved of it.
  - `scanner.rs`: which environments are stale, which directories are
    skipped, size totals, latest modification, oldest-first stable order.
  - `completion.rs`: completion of the scan root path.
  - `ui.rs`: size labels, bar cells and colours, list window, titles and
    footer lines.
  - `text.rs`: character sequences, lexicographic order and sorting.
- `app/` — the program: terminal set-up, the event loop that performs the
  effects the state machine asks for, disk walking, deletion and drawing.
- `tests/` — tests of the library on concrete values.
