# sentinel

Hardware fingerprinting and tamper detection, verified with Verus.

- `src/` is the verified library:
  - `manifest` — the hardware manifest and the diff engine (set differences of
    the identifier collections, ±1 tolerance per CPU timing bucket, exact CPU
    identity), with the laws of verification (reflexive, symmetric, order- and
    repetition-insensitive).
  - `sys_info::linux` — parsers for sysfs, `/proc/cpuinfo`, `lsblk`,
    `dmidecode`, `nvidia-smi` and `lspci` output.
  - `sys_info::timing` — median, bucket quantisation and per-bucket majority
    vote of the CPU timing signature.
  - `identity` — canonical MAC order and the machine id.
  - `report` — the lines of the manifest summary and the verification report.
  - `distribution` — per-core signatures grouped by signature.
  - `json` — JSON values as plain library values (read by `serde_json`) and
    member lookup.
  - `text` — character-sequence primitives (Unicode trim, search, split).
- `app/` is the command-line program: it reads the machine (files, commands,
  timers, thread pinning), stores manifests as JSON and prints the reports.
