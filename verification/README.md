# palsave

A verified library for editing Palworld save files, with a small command-line
program around it.

- `src/` is the library, written in Verus: the `.sav` container, GUID text
  forms, the guild `RawData` codec and identity patching, the property-tree
  edits behind host fixes, deletions, guild and technology edits, and the
  decision rules of the world-level operations (including the commit state
  machine that writes a set of files all at once or not at all). Every
  function carries a contract that Verus proves.
- `tests/` runs the library on concrete values.
- `app/` is ordinary Rust: file and directory I/O, the GVAS reader and writer
  from the `gvas` crate, the Kraken decoder from `oozextract`, and `main`.
