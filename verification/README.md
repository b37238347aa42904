# idle_cosmic

The verified core of the IdleScreen COSMIC panel applet.

- `src/` is a Verus library: the shared config file reader and the merge
  that writes applet-owned keys back, the config file locations, the
  localized strings, the saver labels and popup contents, the applet's
  message handler as a state machine, the fallback order for previews and
  for opening the dashboard, and the pidfile checks. `config_laws.rs`,
  `merge_laws.rs` and `applet_laws.rs` hold the properties proved across
  functions, such as a saved field reading back, foreign lines surviving a
  save, a save keeping every other setting, and a second save of the same
  fields changing nothing.
- `app/` is the COSMIC applet itself: widgets, D-Bus and systemd calls,
  file and process I/O. It performs the outside steps that the library's
  state machines ask for.
- `tests/` runs the library on concrete inputs.

The render scale is kept as the `f32` text it was read or set as; `app/`
turns it into a number for the slider and the daemon, and after loading a
file rewrites it as the text `f32` prints for that number.
