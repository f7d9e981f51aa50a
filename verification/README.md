# rustshooter

The rules and bookkeeping of a small networked first-person shooter,
written in Verus with their contracts proved.

- `src/` is the verified library: scores and the win condition, the kill
  feed and scoreboard texts, remote-player tracking, the server's join,
  relay and kill messages, server addresses and certificate digests, the
  connect screen, key bindings and the settings screen, the weapon, the
  map-archive extraction (`.tar.zst`, through `ruzstd` and `tar`) and the
  spawn-point file, and the test scene's schedules and targets.
  `src/laws.rs` states the properties that relate several operations.
- `tests/` runs the library on concrete values.
- `app/` is the command-line shell of the dedicated server (configuration
  file, startup banner) and the client's contact with the machine (the
  `RSG_SERVER_ADDR` variable, name resolution, the map download and the
  spawn coordinates as floating-point numbers).
