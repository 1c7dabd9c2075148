# anemoia

The decision logic of the Anemoia Minecraft client tooling, written in Verus
and proved against its contracts.

## Layout

- `src/` — the verified library.
  - `injector.rs`, `maps.rs`, `paths.rs` — choosing the game process, reading
    `/proc/<pid>/maps`, the attach handshake and the paths of the libraries.
  - `launcher.rs` — the launcher's process list, injection requests and log tail.
  - `agent.rs` — the agent's command protocol and JVM health monitor.
  - `gui.rs`, `keys.rs` — the ClickGUI's toggle and key-binding state, key
    events, search and chat views.
  - `modules.rs`, `config.rs` — the script module registry, profiles and
    applied configurations.
  - `netty.rs`, `capture.rs` — the packet gate (freeze, script sends) and the
    packet capture buffer.
  - `zulip.rs`, `links.rs` — the Zulip bridge: requests, message caches,
    image links and thumbnails.
  - `game.rs` — small game-facing mappings (effects, faces, hands).
  - `text.rs`, `keyed.rs` — text and keyed-list helpers with their
    specifications.
- `tests/` — tests of the library on concrete values.
- `app/` — the injector program and the I/O around the library (processes,
  sockets, files, HTTP, dynamic loading).
