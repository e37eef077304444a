# prepona

A graph library whose storages, edge descriptors, graph generators and supporting data
structures are written in Verus and proved against their contracts.

## Layout

- `src/graph`: edge types (`DefaultEdge`), directions, weights (`Magnitude`).
- `src/storage`: the storages and what they are built from.
  - `adj_matrix`, `adj_list`: weighted storages with reusable vertex and edge ids.
  - `storages/adj_map.rs`: a storage of vertex and edge values reached by token.
  - `adj_map`: an insertion-ordered adjacency map (`indexmap` tables), with its node and
    edge tables behind trusted wrappers in `adj_map/index.rs`.
  - `edge`: edge descriptors (edges, hyperedges, `K`-uniform hyperedges) and directions.
  - `token`, `error`, `errors`: token provider and error types.
- `src/provide`: the traits storages implement (vertices, edges, node and edge addition),
  node ids, directions, and the node numbering `DefaultIdMap`.
- `src/make`: generators of empty, path, cycle, star and complete graphs.
- `src/misc`: union-find and an infinity value.
- `app/`: error types with `Display` (via `thiserror`) converted to and from the library's,
  and a node numbering kept in a `rudy` map.
- `tests/`: the library's tests.

Every public function states in its contract what it returns or changes; the laws that
relate several operations (for instance, that deleting an edge right after adding it gives
back the storage of before) are public proof functions beside the operations.
