# term-cave-crawl-rpg

A small terminal roguelike: a world of tile maps, each with its own entities
and warps, updated in frames; the player walks with the arrow keys and takes
stairs and tunnels with `>`.

- `src/` is the game's logic, verified with Verus: vectors and directions
  (`util`), tiles, entities, maps and the world with its warps (`world`), the
  map generators (`world::generation`), the camera window (`render`), input
  decisions and frame timing (`app`), and the game state (`game`). Random
  numbers come from `rand` through two trusted wrappers in `random.rs`.
- `app/` is the terminal program around it: input, drawing with `crossterm`,
  the frame loop and a log file.
- `tests/` exercises the library on concrete maps and worlds.

Not part of the library: the world stores level graphs (`World::add_level`,
`World::get_last_level`) but nothing builds them yet, since the level
generator never decides a level's exits. Its steps up to that point are
here: `world_gen::level_connections` spreads a new level's maps over random
clusters (`assign_clusters`), draws extra links (`draw_extra_links`) and
links the maps (`cluster_connections`). The warp placement
(`generation::place_warps`) takes its random cells as a list: the original
draws until enough warps stand, a loop that ends only by chance.
