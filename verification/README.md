# shellkit

The core of a small Wayland desktop shell — a compositor, a lock screen and a
launcher — written as a Verus library whose functions carry `requires` /
`ensures` contracts that Verus proves.

## Layout

- `src/` — the verified library.
  - `rect`, `sweep`, `region`, `canon`: rectangles and regions kept as
    disjoint, maximal y-x bands; union and subtraction are proved point by
    point, and a region's rectangles are determined by its points.
  - `wire`, `conn`: message framing, argument encoding and decoding with
    round-trip lemmas, and the outgoing write queue.
  - `client`, `server`, `session_lock`: protocol objects on both sides of a
    connection, object id tables, event and request parsing.
  - `surface`, `shm`, `blit`, `pointer`: compositor state — pending and
    current surface state with commit, shared-memory pools and buffers,
    copying a client buffer into the output frame, pointer focus.
  - `window`, `timer`, `clock`, `dbus`, `lockscreen`, `lock_session`,
    `counter`, `launcher`: client-side windows, timers, clock text, D-Bus
    bookkeeping, the session lock and small UI state machines.
- `tests/` — tests run against the compiled library.
- `app/` — glue that stays outside verification: the client connection's
  socket reads and writes, the system clock, memory mappings, and pointer
  arithmetic in floating point.
