# riskie

A removable-disk automounting daemon for Linux: it watches udisks2 over D-Bus,
mounts removable devices as they appear, lists them in a system tray menu with
mount, unmount and eject items, and sends desktop notifications.

## Layout

- `src/` — the verified library (Verus):
  - `device.rs` — the device model and its predicates (removable, mounted,
    drive, encrypted, cleartext, unlocked, display label).
  - `properties.rs` — udisks2 property values and how each is read
    (strings, object paths, integers, booleans, byte strings, mount points).
  - `udisks.rs` — how the object manager's objects become devices.
  - `paths.rs` — D-Bus object path validation (through `zbus`).
  - `registry.rs` — the tracked devices and what each event does to them.
  - `tray.rs` — the tray menu built from the tracked devices.
  - `notify.rs` — the desktop notifications.
  - `password.rs` — passphrase prompt decisions and message filling.
  - `text.rs` — small string helpers.
- `app/` — the daemon around the library: the D-Bus client, the event loop,
  the tray service, notifications and the password helpers.
- `tests/` — tests of the library.
