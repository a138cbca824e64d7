# syswatch

A single-host system monitor for the terminal. The decisions it makes are
written in Verus and proved against their contracts; the program around
them reads the machine, draws the screen and touches the disk.

- `src/` — the verified library: key handling as a state machine, tab and
  sort cycles, parsers for what `systemctl`, `launchctl`, `ss`, `lsof`,
  `nettop`, `ioreg` and procfs print, terminal-safe scrubbing of text, the
  refresh windows of the caching collectors (decided from the time since
  the last sample), the anomaly cards' ordering and the integer checks
  behind them, the process tables' filter, scroll window and memory
  ranking, and the session-file format (header, framing, zstd blocks,
  process-identity dedup, and a reader that keeps every whole block before
  a damaged one).
- `app/` — the `syswatch` binary: sampling through sysinfo, procfs, NVML and
  the service managers, drawing with ratatui, the float heuristics, and the
  file I/O for recordings, snapshots and settings.
- `tests/` — tests of the library on concrete values.
