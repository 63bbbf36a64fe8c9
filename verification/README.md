# mac_nfc_tool

A Mifare Classic 1K reader/writer (PN532 over USB serial). `src/` is the
verified core; `app/` is the desktop shell (Tauri commands, the C bridge to
libnfc, file I/O, the `/dev` watcher thread).

- `src/bridge.rs` — decoding of the native bridge's replies (NUL-terminated
  text buffers, status codes, error messages).
- `src/hex.rs` — hex parsing of keys and block data, hex and text rendering of
  bytes, key types; round-trip laws.
- `src/sector.rs` — validation of read/write requests, sector previews.
- `src/dump.rs` — dump files: building them from sector reads, and the plan
  that writes a dump back to a card; write-back and layout laws.
- `src/presence.rs` — which `/dev` names are reader ports, reader status.
- `src/watch.rs` — the presence watcher's decisions; change-reporting laws.
