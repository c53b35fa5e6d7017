# kaiser_core

The logic of Kaiser, a tool that saves and applies named display and audio
profiles on Windows, written in Verus and proved against its contracts.

- `src/` is the verified library: the display model and identity (EDID hashes,
  adapter LUIDs), matching stored layouts to the live displays, cleaning up and
  syncing profiles, planning the two SetDisplayConfig calls of an apply and the
  recovery when one fails, DPI scaling arithmetic, display-mode lists, colour
  calibration bookkeeping, the backend's cache, the profile store's
  bookkeeping and the audio rules of a profile.
- `app/` is the program around it: the command line, the configuration and
  snapshot files, and the Windows display, GDI and Core Audio calls.
- `tests/` runs the library on concrete values.
