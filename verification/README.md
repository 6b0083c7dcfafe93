# ghostpad_core

The core of GhostPad, a plain-text editor: documents and their encodings
(UTF-8, UTF-16 LE/BE with byte order mark, ISO-8859-1) and line endings,
find and replace, the persisted settings and recent-document list, the
manager of open documents with its autosave snapshot, and what the file
watcher decides. The functions in `src/` carry Verus contracts and are
proved against them, except a few small wrappers around the standard
library and the `regex` crate (in `platform.rs`, `text.rs` and `search.rs`),
whose contracts restate what those libraries document.

The library does no I/O. It is handed what was read (file bytes, file
metadata as a `DiskObservation`, the current time) and says what to write
(`document_bytes`, `autosave`, `config`). Operations that alternate reading
and deciding are split into steps: `begin_open` then `open_document`,
`save_target`/`document_bytes` then `save_document`, `reload_path` then
`reload_document_with_encoding`.

Layout:

- `src/text.rs` – characters of strings, decimal digits.
- `src/encoding.rs` – line endings and the byte codecs, with their laws.
- `src/document.rs` – the document model and its operations.
- `src/search.rs`, `src/find.rs` – compiling queries (through the `regex`
  crate), matches, find sessions, replacement.
- `src/settings.rs` – themes, settings, the most-recently-used list.
- `src/manager.rs` – `DocumentManager` and its invariant.
- `src/autosave.rs` – the autosave snapshot and where it is kept.
- `src/watch.rs` – watched paths and merging file events.
- `src/ui.rs`, `src/welcome.rs` – names exchanged with the user interface.
- `src/platform.rs` – contracts for the few standard-library calls used.
- `app/` – the program around the library: files, JSON (serde), the
  `notify` watcher, configuration directories, and the JSON back end the
  user interface calls.
- `tests/` – tests of the library.
