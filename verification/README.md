# max_strike

The logic of a desktop VPN client (VLESS, Trojan and Hysteria2 servers run
through an Xray core), written in Verus with its contracts proved.

- `src/` — the verified library:
  - `text.rs`: characters, whitespace, trimming, splitting, searching and
    decimal numbers;
  - `model.rs`: servers, log entries, routing settings, traffic counters;
  - `share_link.rs`: the grammar of share links, query parameters and the
    servers the links describe;
  - `subscription.rs`: Base64 detection and decoding, and reading a
    subscription line by line;
  - `logs.rs`: the bounded application log;
  - `connection.rs`: the core process handles, the start-up wait, the port
    check, where binaries are looked for, and the GNOME system proxy settings.
- `app/` — the Tauri application around it: global state, files, processes,
  the network and the window.
- `tests/` — tests of the library on concrete values.
