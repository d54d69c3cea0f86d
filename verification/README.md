# turn_tracker

A small server that keeps track of whose turn it is at a table of players
sharing one room: the host creates a room, players join by code, and turns are
passed by the current player (end), pulled by the next one (claim), or
overridden by the host (skip, reorder, remove, undo).

`src/` is the verified library: the room state machine and its laws, player
and room identifiers, name validation, the wire model (with a public view that
never carries a player's secret token), the room registry, persistence
snapshots, and the per-connection decisions (join, dispatch, origin checks,
heartbeat, rate-limit keys, room creation). Every function there carries a
contract proved by Verus; calls into `rand`, `dashmap` and a few `std`
functions go through small trusted wrappers whose contracts are documented
beside them.

`app/` is the executable around it: configuration from the environment, the
data-directory lock, JSON serialisation of snapshots and messages, the HTTP and
WebSocket server, and the background sweep and snapshot tasks.

`tests/` runs the library on concrete values.
