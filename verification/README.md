# kvstore

An in-memory key-value cache served over a small binary protocol, written
with Verus: the library under `src/` carries contracts that Verus proves.

- `src/protocol`: requests and responses, their byte layout (`codec`), the
  connection buffers, and the error type.
- `src/storage`: keys, pages, the page table, the four replacement
  strategies (simple, least recently used, first in first out, time to
  live), and `Storage`, which keeps the stored bytes under a budget.
- `src/server`: the request router.
- `src/tcp`: allow and deny lists of IP networks, and the connection limit.
- `app/`: the executable: settings file, TCP listener, threads, and the
  background expiry sweeper.
- `tests/`: unit tests of the library.
