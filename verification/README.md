# peripheral-forensic

Readers and an anomaly auditor for external-device (peripheral) connection
evidence, written in Verus: each reader and the auditor carry contracts that
Verus proves.

- `src/device.rs` — the normalized `DeviceConnection` record, the `Bus`
  classifier, timestamps tagged with their confidence.
- `src/setupapi.rs` — Windows `setupapi.dev.log` / `setupapi.log` section
  headers (both grammars), including a proved civil-date-to-epoch conversion.
- `src/linux_syslog.rs` — Linux kernel-log USB enumeration blocks.
- `src/usb_ids.rs` — `usb.ids` parsing and a small built-in vendor table.
- `src/registry.rs`, `src/mounted_volumes.rs`, `src/emdmgmt.rs`,
  `src/volume_info.rs`, `src/mountpoints2.rs`, `src/shellbag.rs` — registry
  hive readers (device instances and their property timestamps, the
  `MountedDevices` drive-letter join and MBR records, ReadyBoost volume labels,
  the Windows Search volume-label cache, per-user mounts, `BagMRU` shellbags).
- `src/hive.rs` — the trusted boundary to `winreg-core`: each trusted function
  makes one call and hands back plain values; a call that reads hive cells is
  made only after a verified check over the hive's bytes.
- `src/cells.rs` — the REGF cell layout that check reads: which cells a
  subkey, value or data read reaches, and that each of them is safe to read
  (no allocated cell shorter than its size field, no root index that leads
  back to itself or nests deeper than the reader's recursion can go).
- `src/analyzer.rs` — the anomaly auditor (DMA-capable buses, mass storage,
  HID, OS-synthesized serials) with hedged observation notes.
- `src/text.rs`, `src/numbers.rs` — verified string and integer-parsing
  helpers with the semantics of the `str` / `uN::from_str_radix` functions
  they stand for.

Each reader states its result exactly over a mathematical model (spec
functions over `Seq`, `Map` and views of the record types); the laws that
span functions (log order, record invariants, audit composition, hedged
notes, ...) are public proof functions named `law_*` in the module they are
about.

`app/` holds what Verus does not see: opening hive and log files, and the
`forensicnomicon` `Observation` implementation that turns anomalies into
findings.
