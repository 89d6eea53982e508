# zhtta

A small multi-threaded web server whose decisions are verified with Verus.

- `src/cache.rs`: the in-memory file cache. It records the size of every stored page,
  never records more bytes than its limit, never holds a file name twice, evicts the least
  recently accessed page first until a new file fits, and refuses files as large as the
  limit. The functions ending in `_at` take the time as an argument; the others read the
  clock.
- `src/schedule.rs`: the queue of large static files. Every request is queued: one from
  the local network goes ahead of the first queued remote one, any other joins the end, and
  the queued requests keep their order. The workers take the head.
- `src/request.rs`: reading the requested path from a request and choosing how to answer.
- `src/server.rs`: the server's configuration and the pages it answers with (counter
  page, error page, pages with an embedded command, cached static files).
- `src/text.rs`: character-level helpers (search, prefixes, decimal notation, trimming,
  integer parsing).
- `src/paths.rs`: the file name and extension of a Unix path, as `std::path::Path` gives
  them.
- `src/platform.rs`: the one trusted call into `std`, the wall clock.
- `app/main.rs`: sockets, files, threads, the command line and the `gash` shell.
