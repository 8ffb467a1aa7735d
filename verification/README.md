# forge_core

The Forge: a PID 1 init system and service manager, with its client tools
`forgectl`, `forge-journalctl` and `forge-logind`.

## Layout

- `src/` — the verified library. Every executable function states its behaviour in
  `requires`/`ensures` over spec functions and views, and Verus proves it.
  - `service/` — the unit model and the manager state (`forge.rs`): loading unit files
    (`unit.rs` for TOML units, `systemd.rs` for systemd-style files, `native.rs` for the
    OpenRC-style layout, `dropin.rs` for overrides), target closure, dependency
    resolution, boot waves, the start/stop/restart life cycle, timers, devices and jobs.
    `laws.rs` holds the proof functions that state properties across operations.
  - `rc_update.rs` — runlevels with inheritance (`rc-update add/del/show`).
  - `ipc.rs`, `protocol.rs`, `cli.rs` — the control protocol: what a request does, the
    answers, and the command lines of the client tools.
  - `launch.rs`, `system_bus.rs`, `dbus_wait.rs` — how services and the system bus are
    launched and supervised on the bus.
  - `environment.rs`, `cgroup.rs`, `sandbox.rs`, `notify.rs`, `wait_status.rs`,
    `signals.rs`, `timer.rs`, `jobs.rs`, `journal.rs`, `recovery.rs`, `network.rs`,
    `vfs.rs`, `early_boot.rs`, `graph.rs` — the smaller rules each part follows.
  - `text.rs` — character-level string operations with exact specifications, on which
    the parsers are stated.
- `tests/` — tests of the library on concrete values.
- `app/` — the program around the library: process spawning, sockets, signals, files,
  the D-Bus names, the Rhai boot script and the steady-state loop. It hands the library
  plain values and acts on what it returns.
