# imposter

A simulator that impersonates a fleet of sensor boards on a local network:
each board streams its data packets over UDP to the backend as
newline-delimited JSON, takes orders over TCP and acknowledges those it
knows, at a period and with switches taken from `imposter.toml`, and obeys
control messages when that file changes.

- `src/` is the verified library: the name-keyed maps the configuration is
  held in, configuration assembly, the resolution of per-board settings
  (`imposter_cfg`), launch planning (`fleet`), the measurement update rules
  and the table of live values (`state`), the per-board control state
  machine (`simulator`, `board`), the debounce of the settings watcher
  (`watcher`), the JSON packets and order acknowledgements (`wire`) and the
  text helpers they use (`text`).
- `app/` is the program around it: command-line flags, reading the JSON and
  TOML files, the tokio tasks, UDP and TCP sockets, the file notifications,
  and the floating-point arithmetic on measurement values.
- `tests/` exercises the library.

Floating-point values (range bounds, the random step) cross the library as
the bit patterns of IEEE-754 doubles (`f64::to_bits`).
