# okibi

Cache warming for on-demand tiles: aggregate what people asked for into a
demand digest, derive from an invalidation which of those tiles died, plan
which to regenerate first, and fetch them.

- `src/` is the library, written in Verus and verified: quadkeys and tile
  grids, the calendar, digest windows and queries, invalidation scopes,
  manifests and their URL templates, epoch files and the events derived from
  them, the decisions a plan is refused or bounded by, the roll-up of query
  rows into digest records, plan diffs, URL sampling, and content hashes.
  Each public function carries a contract, and the laws the library promises
  (round trips, orderings, what an unchanged input gives) are proof functions.
- `tests/` runs the library on concrete values.
- `app/` is the `okibi` command line around it: reading and writing files,
  the SQL API and the origins over HTTP, the clock, the WebAssembly bindings,
  and the parts that weigh demand, which are arithmetic in floating point.
