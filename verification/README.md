# MagicPad Companion

A desktop companion for Apple Magic Trackpads (Windows 11, Linux, macOS):
device detection, battery, Precision driver / udev helper management, a
Linux multi-finger gesture daemon and an activity log.

## Layout

- `src/` — the verified library (Verus). The program's decisions live here
  with their contracts, except those taken on floating-point values (swipe
  deltas, pinch scale, settings scaled into the registry), which stay in
  `app/`:
  - `device_group.rs`, `grouping.rs` — collapsing the many HID/USB nodes of
    one trackpad into one device, and what the grouping keeps.
  - `linux.rs` — sysfs enumeration, power-supply batteries, udev helpers.
  - `windows.rs` — SetupAPI nodes, registry properties, driver status,
    install / uninstall results, INF search.
  - `gestures.rs`, `daemon.rs` — gesture bindings, key chords, the daemon's
    event parsing and firing rules, its readiness report and unit files.
  - `logbook.rs` — the bounded activity log.
  - `models.rs`, `error.rs`, `platform.rs`, `text.rs` — shared types, errors,
    fixed backends and the text functions the rest is built on.
- `app/` — the program around it: file, process and OS access, the Tauri
  commands, the serde forms of the models, and the gesture session loop
  (which works on floating-point deltas).
- `tests/` — tests of the library.
