# linux_task_manager

A lightweight GTK4 system monitor for Linux (CPU, GPU, network and power
tabs), built around a verified telemetry core.

- `src/` — the library, written in Verus and verified: the `/proc/stat` and
  `/proc/net/dev` parsers (`platform::proc`), the sysfs decisions for
  powercap zones, power supplies and AMD cards (`platform::power`,
  `platform::amd`), the NVML return-code decisions (`platform::nvidia`),
  counter delta tracking and bounded metric history
  (`telemetry`), and the per-monitor state, choices and tab contents —
  subtitles, row labels in display order, graph points (`monitors`).
  Each public function's contract is stated over `Seq`/`Map` models; the
  `law_*` proof functions state properties that span several calls.
- `app/` — plain Rust around it: file and directory reading, turning the
  library's integer row values into f64 metric values and their text, the NVML bindings, sampler threads and
  the GTK user interface.
- `tests/` — tests of the library on concrete inputs.

Timestamps handed to the library are monotonic nanosecond readings; rates
and watts are computed from the integer deltas it returns.
