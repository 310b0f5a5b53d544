# brickrail

A controller library for LEGO train layouts run by Powered Up hubs: the
track grid and its connections, blocks and markers, route finding and track
locks, the hubs and their programs, and the simulation server that moves
trains from block to block. Every function under `src/` carries a contract
that Verus proves.

## Layout

- `src/` — the verified library.
  - `layout_primitives.rs`, `layout_names.rs`, `layout_display.rs`: cells,
    tracks, connections, blocks and hubs, with their textual names and the
    laws that reading a name gives the value back.
  - `connections.rs`, `section.rs`, `route.rs`, `layout.rs`, `train.rs`:
    the track graph, sections, routes, track locks and trains.
  - `hub.rs`, `persistent_hub_state.rs`, `ble_train.rs`: hub state machines,
    commands and messages, and what is remembered between runs.
  - `editor.rs`, `block.rs`, `destination.rs`, `marker.rs`, `switch.rs`,
    `crossing.rs`: the elements the editor works on.
  - `common/`: the simulation server — layout elements and their registries,
    the logical track graph, route legs, train positions, and the commands
    clients send.
  - `keyed.rs`, `text.rs`, `utils.rs`: a map keyed by the library's own
    identifiers, text helpers, and the program hash.
- `tests/` — tests of the library on concrete values.
- `app/` — the desktop program around it: file and hub-state I/O, the
  float-valued route search and the simulated driver.

Outside crates: `petgraph` holds the graphs, `sha2` hashes hub programs,
`rand` shuffles route candidates, and `serde`/`serde_json` read and write
files in `app/`.
