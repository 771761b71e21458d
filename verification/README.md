# convergio_mesh

The verified core of a peer-to-peer mesh of nodes that replicate a few
database tables between them.

- `src/` is the library, checked by Verus: the `peers.conf` format and the
  peers registry, name canonicalization, request signing and checking,
  last-writer-wins application of remote rows, the sync cursor rule, the
  steps of a sync round, capability matching, node roles, readiness and the
  repository update steps. Laws about them (what a save gives back on load,
  how the cursor moves, what a signed request is answered) are proof
  functions next to the code, in `ini_laws.rs` and the modules they concern.
- `app/` is the runtime around it: SQLite access, the HTTP routes and
  clients, files, environment and the background sync loop.
- `tests/` runs the library on concrete values.
