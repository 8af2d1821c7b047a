# multiplayer_fps

A first-person multiplayer maze game in the style of Maze Wars: a UDP server
holds the authoritative game state at 60 Hz, and each client renders the
maze with a software raycaster, a minimap and a frame-rate counter.

The library under `src/` is written in Verus and verified:

- `map` — the tile grid, the wall query, and the three built-in levels
  (16x16, 24x24 and 32x32), each proved valid (walled border, spawn points
  on floor tiles).
- `player` — a player's state; the fixed 16-byte name field and how it reads
  back as text.
- `protocol` — the packets; single-precision values travel as bit patterns.
- `server_state` — the server's session table: joins, reconnects, the client
  limit, distinct player ids, inputs and their ordering, disconnects, the
  timeout tick, the world snapshot, and the dispatch of each received packet.
- `client_state` — the client's view and what each server packet does to it.
- `input` — held movement keys and the direction they give.
- `screen`, `hud`, `minimap`, `raycast` — every write into the RGBA frame
  buffer: pixels, the bitmap-font counter, minimap tiles and dots, the wall
  columns and sprites, and the conversion for presentation.

`app/` is the executable around it: sockets and the async runtime, the
window and event loop, the bincode wire format, and the floating-point parts
(movement with collision, ray casting, input velocities).

Run `app server [port] [level]` for the server (defaults: port 34254,
level 0) and `app` for the client.
