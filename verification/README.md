# diff_calc

A difficulty overlay for Quaver maps, verified with Verus.

- `src/` is the verified library: the map model (`map`), string helpers with
  their specifications (`text`), reading Quaver's mode, mods and map files
  (`quaver`), folding hit objects into chords for the difficulty calculator
  (`chords`), and the decisions of the file watcher (`watcher`) and of the
  overlay window (`overlay`).
- `app/` is the program around it: the window, file watching, YAML parsing,
  the difficulty calculator and all floating-point arithmetic.
- `tests/` runs the library on concrete values.
