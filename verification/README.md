# wave2

The verified core of wave2, a waveform viewer for VCD files.

- `src/backend` — reading a VCD file's bytes with the `vcd` crate
  (`parse_vcd`, `wdb_from_vcd_bytes`), loading its value-change section into per-signal
  buckets chunked by time slice, the map from dotted signal names to VCD
  identifier codes, four-state values as two bit planes, and joining a
  signal's buckets back into one wave.
- `src/widgets` — the state of the custom widgets: context-menu entry
  trees, cell and cell-list selection, the signal window's time axis (zoom
  levels and the nanoseconds per header frame), and `#rrggbb` colors.
- `src/components` — the panes: the list of added waves, the wave window,
  the beach that keeps the two side by side and decides which values to
  read and where the cursor moves, the module hierarchy built from a VCD
  header (`modules_of`) and the module navigator, the menu bar and icon bar, and
  the header timestamps of the canvas wave window.
- `src/application.rs` — the viewer as a whole: which pane each message goes
  to and which command the program performs next.
- `app/` — the program around the library: command-line options, reading
  a VCD file's bytes, storing buckets in a sled database with bincode and
  toml, and running the viewer's commands.
