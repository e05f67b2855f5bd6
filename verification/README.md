# geostationary

The rules of a multiplayer space-station game, written in Verus and proved
against their specifications: tile maps and their chunked on-disk format,
the atmosphere layer, item containers and the pickup/drop/store/take rules,
interaction requests and context menus, thing templates and the replication
index, souls (which client drives which creature), the map editor's
decisions, the debug overlay, and the network session machines and
initial-sync barriers on both ends of a connection.

Layout:

- `src/` — the verified library.  Every executable function carries a
  contract; the `lemma_*` proof functions state the laws that tie several
  operations together (saving the tiles or the atmosphere layer and
  loading it back succeeds and gives the map back, snapshots round-trip,
  container insert/remove, pickup then drop, the handshake order, and so
  on).  Calls into `base64`, `rcgen` and `rustls` go through small trusted
  wrappers whose contracts are stated beside them.
- `tests/` — tests of the library on concrete values.
- `app/` — a headless dedicated server around the library: command-line
  handling, map files (RON), wire formats (wincode), the QUIC runtime
  (quinn and tokio) that carries out what the session machines decide, and
  the floating-point gas simulation.  `--edit-map <path>` runs the map
  editor's load and save on a file without a window.
