# logview

A terminal viewer for NDJSON log files (one JSON object with `time`, `level`,
`logger` and `text` per line), with logger, message and minimum-level filters,
expansion of multi-line messages and a save prompt for the entries shown.

- `src/` is the library, verified with Verus:
  - `text.rs`: trimming, substring search, `str::lines`, decimal numbers, padding;
  - `level.rs`: log levels, their order, names, colours and how a level field is read;
  - `log_entry.rs`: a log record and what the viewer reads from it;
  - `model.rs`: filtering (`FilteredVec`, `Filters`, `FilterPredicate`) and the table model;
  - `scroll.rs`: selection and viewport over rows of varying height;
  - `app.rs`: the viewer state and its operations;
  - `input.rs`: what each key does in each focus;
  - `widgets.rs`: the text, layout plan, labels and cursor positions that the screen shows.
- `app/` is the program around it: command line, file reading and writing,
  terminal setup, drawing with ratatui and the event loop.
- `tests/` runs the library on concrete values.
