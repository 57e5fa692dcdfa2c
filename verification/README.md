# botonera_engine

The verified core of a sound-board engine, written in Verus.

- `src/input`: global shortcuts, MIDI bindings, message decoding, the rules
  that keep a MIDI trigger bound to one action, and the MIDI runtime's
  decisions (capture slot, connections).
- `src/library`: the music library's catalog logic: paths as `std::path`
  reads them, paging and windows over the catalog, folder trees, file
  renaming and its recovery, discovery and indexing decisions, retention and
  purging of roots, searching and ranking, listing order.
- `src/model.rs`: the part of the application configuration that these
  rules read and edit.
- `app/`: the input and output around the library (SQLite catalog queries,
  the file system, audio tags, the file-system watcher, JSON wire forms).

Verus proves every function in `src/` against its contract, except the
small wrappers around std calls that vstd leaves unspecified (`String::push`,
`str::to_lowercase`, the `mpsc` channel calls and `Arc::strong_count`), whose
contracts are trusted and say no more than std documents. `MidiEngine::sync`
only hands a message to a channel and states nothing about its delivery. The laws that span several functions are public proof
functions.
