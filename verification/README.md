# rogue_adventure

The rules of a five-floor dungeon crawler, as a verified library, and the
Bevy game around it.

- `src/` — the library; every function is proved against its contract,
  except the three small wrappers of `rng`, whose contracts are trusted:
  - `map` — the grid (`GameMap`, `TileType`, `FogState`, `Room`) and its accessors;
  - `level_gen` — floor generation: room placement, carving of rooms and
    corridors, monsters, chests, boss and ladder (`generate_level`), stated
    over the sequences of draws that produce each floor;
  - `connect` — proof that every generated floor is connected;
  - `fog` — Bresenham line of sight and the fog-of-war update;
  - `stats`, `items`, `combat`, `state` — the player's statistics, pickups and
    chests, blows and kills, and the screens of the game;
  - `render` — what the map shows (glyphs, visible entities, walls that block)
    and the loading of a new floor;
  - `rng` — the calls into `rand` (`thread_rng`, `gen_range`, `gen_ratio`);
    what their contracts claim (a value in the requested range, and the
    certain outcomes of a ratio of 0 or 1) is taken from rand's source, not
    proved. Each function that draws hands the drawn values to a verified
    decision function (`keep_room`, `place_thing`, `loot_from_draws`,
    `strike`), whose contract is exact.
- `app/` — the Bevy program: windowing, entities, physics, input, drawing,
  floating-point positions and timers, and the browser-only video panel.
- `tests/` — tests of the library.
