# bees

Forwarding of requests between platforms arranged in a tree (A -> B -> C),
where a platform cannot reach another directly and the ones between relay.

The library (`src/`) holds the logic, verified with Verus:

- `forward::routes`: the depth-first walk of the platform tree that records,
  for every platform, the path a request takes (from the root down on the
  root platform, towards the root elsewhere).
- `forward::relay`: the `Forward-Path` header logic (next hop, end of path,
  destination lookup, the `Forward-Back` trail), the middleware's steps
  (`middleware_step`, `middleware_after_lookup`) and the answers on failure.
- `forward::path_map`, `forward::dijkstra`, `forward::api`, `forward::local`.
- `common`: configuration types, the registry URL reader, numerals and
  comma-separated lists, the answer type.
- `output::handlers`: what is read from documents stored locally.
- `laws`: properties of the scheme as a whole (hop-by-hop forwarding, path
  shapes, table contents); `graph_laws`: the neighbour graph holds exactly the
  tree's neighbours, none twice when names are distinct.

`app/` is the program around it: configuration loading, the registry client,
the HTTP server and middleware, Elasticsearch and Kafka.
