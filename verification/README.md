# fastcache

A caching proxy server: it serves files from local directories and proxies
remote servers, keeps responses in an in-memory TTL cache, answers
`If-None-Match` revalidations with `304`, and offers cache purging over a Unix
admin socket.

- `src/` is the library, with its specifications and proofs: route matching (longest prefix
  first), grouping of configured origins into routes, the cache over `moka`,
  ETags, the request-serving state machine with fallback across origins, the
  admin protocol, the HTTP answers and the decisions of the local and remote
  origins.
- `app/` is the program around it: command line, configuration file, the
  axum servers, rate limiting, the admin socket and the origins' file and
  network I/O.
- `tests/` exercises the library.
