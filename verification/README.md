# raycaster

A small ray-casting game engine (a Wolfenstein-style renderer with levels, enemies, pickups
and an inventory), split in two:

- `src/` is the verified library, checked by Verus. It holds the engine's bookkeeping
  (levels' tile grids, the current level, pause and debug switches, what each frame does),
  tile lookups and collisions, the inventory, the enemies' state machine, the text overlay
  drawn with the `font8x8` bitmaps, the resizing (through `image`) and packing of textures, and the
  integer steps of the renderer (stripe clamping, texture choice and coordinates, fake
  lighting).
- `app/` is the program around it: the `minifb` window and its input, the RON configuration
  read with `serde`, and everything that computes in floating point (the ray casting itself,
  movement, aiming, fog shading, the player's health and armor).

Modules of the library:

- `engine` — `Engine` (frame plan, level changes, tile lookups), `render` (text, pause
  message, pixel and texture arithmetic), `update` (movement keys).
- `world` — `map` (`TileMap`), `player` (`Items`, `Inventory`), `entity` (`EnemyState`,
  `EffectType`).
- `raycasting_engine::player` — the inventory variant whose weapon search stops at a key.
- `utils::helpers` — texture resizing and packing.
- `run_game` — starting a game from its levels.
