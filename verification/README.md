# powerflow

Battery and charging monitor for macOS: it samples the Mac's battery through the
I/O Registry, follows iPhones and iPads attached over USB or Wi-Fi, records
charging sessions and a daily battery-health snapshot in SQLite, and reports the
processes that use the most energy.

## Layout

- `src/` — the verified library (Verus):
  - `ioreg` — the registry readings (`IORegistry` and its nested blocks);
  - `provider` — normalization of a reading into a sample: capacities, charging
    direction, remaining-time source, power figures in microwatts;
  - `device` — the device preparation protocol as a state machine, teardown, and
    service-call outcomes;
  - `registry` — known devices (`DeviceState`) and open connections
    (`DeviceConnections`), with the USB-over-Wi-Fi polling choice;
  - `history` — charging sessions: admission of samples, compaction, session
    end, summaries, and the per-device recorder;
  - `process_energy` — parsing of `top` output;
  - `event` — preference and device events;
  - `text` — small string helpers.
- `tests/` — tests of the library.
- `app/` — the program around it: IOKit and MobileDevice calls, property-list
  decoding, the database, the sampling and device loops, and the floating-point
  figures shown to the user.
