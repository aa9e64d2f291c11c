# explorer_rs

A tabbed, dual-pane file manager for Japanese users, built around a library
whose decisions are proved correct with Verus.

- `src/` — the verified library: natural name order, sorting rows
  (directories first, stable), tabs with history, selection and focus,
  path text on Windows and Unix, rename-name checking, paste destinations,
  human-readable sizes, typed-input routing, the icon cache, font choice,
  watcher debouncing and the texts the interface shows.
- `tests/` — tests of the library on concrete values.
- `app/` — the window (egui/eframe), the disk, threads, the file watcher,
  the trash, the settings file and the Windows shell calls; each hands plain
  values to the library and carries out what it answers.
