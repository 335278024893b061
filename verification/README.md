# thermal_berry

The logic of Thermal Berry, a fan and temperature controller for Alienware
laptops on Linux, as a verified Verus library, with the desktop app around it.

- `src/` — the library, verified by Verus:
  - `curve` — fan curves (interpolation, hysteresis, percent/boost
    conversions) over temperatures in millidegrees Celsius;
  - `config`, `table` — the settings and the per-fan tables they hold;
  - `state` — telemetry samples and the shared state (history ring buffer);
  - `commands` — the decisions behind the UI commands and the udev script;
  - `monitor` — the curve engine's tick, purge cutoff and schedule, loop
    timing, status line;
  - `db` — rows ↔ values for the SQLite database, and loading a
    configuration back from what it stores;
  - `thermal` — the device traits, vendors, errors, Alienware hwmon names and
    the reading of numeric attribute files;
  - `tray`, `update`, `uninstall`, `text` — tray menu actions, version
    checks, uninstall script, string helpers.
- `tests/` — tests of the library.
- `app/` — the Tauri app: sysfs access, SQLite, the monitor thread, the tray,
  serde copies of the library's types.
