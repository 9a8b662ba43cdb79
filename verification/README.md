# lucius

`lucius` runs the services of a development shell ("service set") as
transient systemd user units. A manifest names the services, their
commands, configs, runtime directories, systemd settings and the
dependencies between them; shells take leases on the set, and a small
per-set daemon stops the services when the last lease goes.

The library in `src/` is written in Verus and verified. It holds what the
program decides:

- `manifest`, `strmap`: the manifest model, over ordered string maps;
- `ordering`, `systemd`: which services `up`, `down` and `restart` act on,
  and in which order (dependencies first on start, dependents first on
  stop; cycles and unknown names are refused);
- `path`, `runtime`: runtime directories under `XDG_RUNTIME_DIR`, the
  service environment, and rendered config files, none of which can leave
  its directory;
- `values`, `units`, `properties`, `control`: systemd option values,
  unit names, the properties of transient units, and what starting and
  stopping do given what systemd reports;
- `leases`, `daemon`: lease files and tokens, the daemon's socket, its
  requests and answers, and what it does with each;
- `cli`, `status`, `tui`: the command line, the `inspect` text, the status
  model and the status screen.

`app/` is the `ides` program around it: argument and environment reading,
JSON, files, the daemon socket, and the D-Bus calls to systemd.
