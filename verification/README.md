# Kuvatin

Kuvatin is a batch image converter and a small video editor for the desktop. This
crate holds what it decides; everything it decides is stated in contracts and
proved with Verus.

- `src/` is the library. Each module covers one part of the app: the command line
  (`cli`, `launch`), the processes that Explorer starts for one selection and that
  fold themselves into one batch (`rendezvous`, `gather`), the image list with its
  crops, presets and undo (`image_mode`, `image_history`, `file_rows`, `presets`,
  `batch`, `collect`), the timeline with its undo (`timeline`, `timeline_undo`,
  `timeline_rows`, `timeline_apply`, `timeline_laws`, `recorder`, `history`), media
  import, export, playback and projects (`import`, `export`, `playback`, `waves`,
  `project_file`), headless runs (`quickrun`, `sequence_render`, `progress`), and
  the log, the settings, the updates and the window (`applog`, `calendar`,
  `settings`, `updates`, `win_drop`, `window_size`, `dialogs`). `text`, `utf16`,
  `paths`, `order`, `sorted_map`, `assoc` and `clip` are what these are built on.
- `tests/` runs the library on concrete values.
- `app/` is the program around it: files, threads, timers and floating point. The
  image engine, the video engine, the shell and the window are traits there
  (`app/machine.rs`); a build plugs in those it has.

Public proof functions state the laws that span several functions: that an undo
takes the timeline exactly back, that a burst of processes ends in one batch with
every path in it once, that a path survives its spool line whatever it is made of,
that a preset round-trips through the controls, and so on. Most modules keep theirs
at the end.
