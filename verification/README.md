# pizdos_scanner

A scanner of `/24` subnets taken from Xray/V2Ray `geoip.dat` code lists, the
configuration, or subnet list files. Each host is probed by ICMP echo and TCP
(port 443 always, plus the configured ports); results are appended after every
subnet, so an interrupted scan resumes where it stopped.

Layout:

- `src/` — the library, written and proved with Verus: configuration defaults,
  the `geoip.dat` decoder and code selection, IPv4 network arithmetic and the
  `/24` expansion, the per-host probe sequence, per-subnet aggregation, the
  CSV/JSONL/TXT result lines and the lists rebuilt from JSONL records, the job
  identity and resume state, the steps of a subnet in a session (whitelist
  stop, endpoint retries, periodic pauses), the parallel scheduler, the
  dashboard state and texts, and the IP-information table.
- `app/` — the command-line program around it: argument parsing, file and
  network I/O (ICMP, TCP, HTTPS with SNI, MaxMind lookups, HTTP providers),
  the terminal dashboard, and the floating-point rate figures.
- `tests/` — tests of the library on concrete values.
