# foundry

The verified core of a chunked factory game: terrain and ore generation,
inventories and machine containers, the game rules that move items around,
and the binary formats chunks and player state are saved in.

Everything under `src/` is verified with Verus; `app/` holds the parts that
are not: asynchronous storage interfaces, the native storage backend, and the
floating-point work (colour blending, turning elapsed seconds into machine
progress) together with the per-frame loops over the loaded chunks, which it
keeps by key and hands to the library.

## Modules

- `world` — chunk coordinates, tiles, ore cells, placed structures, and the
  chunk record with its mathematical model.
- `generation` — deterministic terrain, ore patches and whole-chunk generation.
- `inventory` — the player's inventory: counts per item, shown as stacks of at
  most 100 in at most 32 slots.
- `containers` — chests, furnaces, drills, alembics, crucibles and inserters,
  and moving items in and out of their slots.
- `gameplay` — recipes, crafting, smelting and distilling outputs, item and
  structure catalogue, object ids.
- `rules` — furnaces smelting, drills mining, alembics distilling, crucibles
  transmuting, mining by hand, placing and picking up structures.
- `transfer` — what inserters push and pull, and the order they work in.
- `moves` — an inserter carrying one item across the loaded chunks, put back
  where it came from when it finds no room.
- `ore_nodes` — the ore the map shows per tile and the total left in a
  deposit of side-by-side tiles.
- `hud` — which panel covers the screen and how keys switch it, and the short
  texts of the heads-up display.
- `eviction` — which loaded chunks leave memory, least recently used first.
- `save_queue`, `load_queue` — chunk saves waiting to be written, and chunk
  reads waiting to be started.
- `controls` — hotbar, placement choice, storage status, detail labels.
- `map_view` — map colours, per-tile overlays and the ore summary kept with
  explored chunks.
- `icons` — HUD icon and player sprite pixels.
- `codec`, `wire` — the chunk format (versions 1 to 7 read, 7 written). The
  format has no section for alembics and crucibles, so their contents are
  not saved.
- `player_state` — the inventory blob saved beside a world.
- `types`, `errors`, `text` — storage records, errors, decimal text.

The main laws proven: decoding an encoded chunk gives the chunk back (in
format 7, and in format 4 for what it holds); decoding an encoded inventory
gives the inventory back; placing a structure and picking it up again
restores chunk and inventory; taking one item and adding it back restores an
inventory; a craft changes each count by exactly what the recipe takes and
makes; the displayed stacks are ordered, capped and add up to the counts;
different chunk keys have different key texts; smelting and drilling use
exactly one input and one fuel per item made; an inserter move neither makes
nor loses items; pressing the crafting or map key twice leaves the panels as
they were.
