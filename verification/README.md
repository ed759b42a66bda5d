# ksng

The core of the ksng karaoke editor, written in Verus. Every public function
in `src/` carries a contract, and so do most private ones. Verus proves
those contracts, except for the functions marked `#[verifier::external_body]`:
these wrap calls into std or into outside crates (`tar`, `regex`, `similar`,
`uuid`, `infer`, `size`). Their `ensures` clauses are believed rather than
proved, and their doc comments say which outside function each one wraps and
what it claims of it.

- `src/` is the library. Among its modules: `lyrics` and `lyrics_edit`
  (reading and writing lyrics text, applying an edited text to a track),
  `commands`, `track_commands` and `lyrics_commands` (edits with undo and
  redo), `selection`, `timeline` (pointer states and drags), `storage` (the
  list of saved projects), `waveform` (the waveform cache and the layout of
  its header), `archive` (waveform archives as bytes), `audio` and `filters`
  (encoder setup and frame bookkeeping), `ml` (models and tasks of the
  separation worker), `modals` and `ui` (the decisions behind the editor's
  dialogs, menus and tabs), and `editor` (events and the views that follow
  the open project). The `*_laws` modules hold properties that span several
  functions.
- `tests/` runs the library on concrete values.
- `app/` is a small command-line front end: it lists and deletes saved
  projects, detects audio file types, reads lyrics files and waveform
  archives from disk, and runs editor events.
