pub mod map_gen;
pub mod world_gen;

use vstd::prelude::*;

use crate::random::random_u32_in;
use crate::util::vec2::Vec2;
use crate::world::entity::Entity;
use crate::world::game_map::GameMap;
use crate::world::game_map::key_of;
use crate::world::game_map::lemma_cell_index;
use crate::world::generation::map_gen::test_tile;
use crate::world::tile::Tile;
use crate::world::world::TargetInfo;

verus! {

/// The kinds of map of the level-based generator.
#[derive(Debug, Clone, Copy, Default, PartialEq, Eq, Structural)]
pub enum MapType {
    #[default]
    Test,
    RockCave,
    FloodedRockCave,
    RockCaveWithLakes,
    RockCaveWithLava,
}

impl MapType {
    /// The tile that a fresh map of this kind is filled with.
    pub open spec fn base_tile(self) -> Tile {
        match self {
            MapType::Test => Tile::Floor,
            _ => Tile::RockFloor,
        }
    }

    /// Floor for the test map, rock floor for the caves.
    fn default_tile(&self) -> (r: Tile)
        ensures
            r == self.base_tile(),
    {
        match self {
            MapType::Test => Tile::Floor,
            MapType::RockCave => Tile::RockFloor,
            MapType::FloodedRockCave => Tile::RockFloor,
            MapType::RockCaveWithLakes => Tile::RockFloor,
            MapType::RockCaveWithLava => Tile::RockFloor,
        }
    }
}

/// The size of a new map: 50 by 50 for the test map, a random size from 10
/// to 99 per side for the caves.
fn get_size_for(map_type: MapType, level: i32) -> (r: (u16, u16))
    ensures
        map_type is Test ==> r == (50u16, 50u16),
        !(map_type is Test) ==> 10 <= r.0 <= 99 && 10 <= r.1 <= 99,
{
    match map_type {
        MapType::Test => (50, 50),
        _ => {
            let w: u16 = random_u32_in(10, 100) as u16;
            let h: u16 = random_u32_in(10, 100) as u16;
            (w, h)
        },
    }
}

/// The tile of the level-based test map at `x`, `y`: with a direction
/// `Some(d)`, the warp tile back (for `-d`) at 10, 10; elsewhere the tile of
/// the plain test map.
pub open spec fn level_test_tile(x: u16, y: u16, rand_val: u16, direction: Option<i32>) -> Tile {
    match direction {
        Some(d) => if x == 10 && y == 10 {
            Tile::warp_for((-d) as i32)
        } else {
            test_tile(x, y, rand_val)
        },
        None => test_tile(x, y, rand_val),
    }
}

/// Every tile of the map is the level-based test tile, for some random
/// offset below 3.
pub open spec fn is_level_test_layout(m: GameMap, rand_val: u16, direction: Option<i32>) -> bool {
    &&& rand_val < 3
    &&& forall|x: u16, y: u16|
        x < m.spec_width() && y < m.spec_height() ==> #[trigger] m.tile(x as int, y as int)
            == level_test_tile(x, y, rand_val, direction)
}

/// Whether a direction of levels can be reversed.
pub open spec fn reversible(direction: Option<i32>) -> bool {
    direction matches Some(d) ==> d != i32::MIN
}

/// A new map of the given kind for a level, without warps and entities:
/// the test map of 50 by 50 cells, with a warp back at 10, 10 when the map
/// was entered in a direction; a cave of 10 to 99 cells per side, plain rock
/// floor.
pub fn generate_map(gen_type: MapType, level: i32, direction: Option<i32>) -> (r: GameMap)
    requires
        reversible(direction),
    ensures
        r.wf(),
        r.warps_view() == Map::<u32, TargetInfo>::empty(),
        r.free_warps_view() == Set::<u32>::empty(),
        r.entities_view() == Map::<u32, Entity>::empty(),
        r.next_id() == 0,
        gen_type is Test ==> {
            &&& r.spec_width() == 50
            &&& r.spec_height() == 50
            &&& exists|rand_val: u16| #[trigger] is_level_test_layout(r, rand_val, direction)
        },
        !(gen_type is Test) ==> {
            &&& 10 <= r.spec_width() <= 99
            &&& 10 <= r.spec_height() <= 99
            &&& forall|x: u16, y: u16|
                x < r.spec_width() && y < r.spec_height() ==> #[trigger] r.tile(x as int, y as int)
                    == gen_type.base_tile()
        },
{
    let (width, height) = get_size_for(gen_type, level);
    assert(width * height <= u16::MAX) by (nonlinear_arith)
        requires
            width <= 99,
            height <= 99,
    ;
    let map = GameMap::new(width, height, &gen_type.default_tile());
    let r = generate(map, gen_type, level, direction);
    proof {
        if !(gen_type is Test) {
            assert forall|x: u16, y: u16| x < width && y < height implies #[trigger] r.tile(
                x as int,
                y as int,
            ) == gen_type.base_tile() by {
                lemma_cell_index(width as int, height as int, x as int, y as int);
            }
        }
    }
    r
}

/// Lays out a fresh map according to its kind: only the test map has a
/// layout; the caves stay as they are.
fn generate(map: GameMap, gen_type: MapType, level: i32, direction: Option<i32>) -> (r: GameMap)
    requires
        map.wf(),
        reversible(direction),
        gen_type is Test ==> map.spec_width() == 50 && map.spec_height() == 50,
    ensures
        r.wf(),
        r.spec_width() == map.spec_width(),
        r.spec_height() == map.spec_height(),
        r.warps_view() == map.warps_view(),
        r.free_warps_view() == map.free_warps_view(),
        r.entities_view() == map.entities_view(),
        r.next_id() == map.next_id(),
        gen_type is Test ==> exists|rand_val: u16| #[trigger] is_level_test_layout(r, rand_val, direction),
        !(gen_type is Test) ==> r.tiles_view() == map.tiles_view(),
{
    match gen_type {
        MapType::Test => generate_test(map, direction),
        _ => map,
    }
}

/// The warp tile that a placement draw `t` puts down: stairs up for 0, a
/// tunnel for 1 or 2, stairs down otherwise.
pub open spec fn placed_warp(t: u8) -> Tile {
    if t == 0 {
        Tile::StairUp
    } else if t == 1 || t == 2 {
        Tile::Tunnel
    } else {
        Tile::StairDown
    }
}

/// One try of placing a warp to another level at `x`, `y` with the draw
/// `t`: where the tile is passable and not a warp tile already, it becomes
/// the warp tile for `t` (see `placed_warp`) and the cell is recorded as a
/// warp that is not linked yet; elsewhere nothing changes. Returns whether a
/// warp was placed.
pub fn try_place_warp(map: &mut GameMap, x: u16, y: u16, t: u8) -> (placed: bool)
    requires
        old(map).wf(),
        old(map).in_bounds(x as int, y as int),
    ensures
        final(map).wf(),
        placed == (old(map).tile(x as int, y as int).passable() && old(map).tile(
            x as int,
            y as int,
        ).level_delta() is None),
        placed ==> {
            &&& final(map).tiles_view() == old(map).tiles_view().update(
                old(map).index_of(x as int, y as int),
                placed_warp(t),
            )
            &&& final(map).free_warps_view() == old(map).free_warps_view().insert(
                key_of(Vec2 { x, y }),
            )
            &&& final(map).spec_width() == old(map).spec_width()
            &&& final(map).spec_height() == old(map).spec_height()
            &&& final(map).warps_view() == old(map).warps_view()
            &&& final(map).entities_view() == old(map).entities_view()
            &&& final(map).next_id() == old(map).next_id()
        },
        !placed ==> *final(map) == *old(map),
{
    proof {
        lemma_cell_index(map.spec_width() as int, map.spec_height() as int, x as int, y as int);
    }
    if !map.is_passable(x, y) {
        return false;
    }
    if map.tile_at(x, y).get_level_delta().is_some() {
        return false;
    }
    let tile = match t {
        0 => Tile::StairUp,
        1 | 2 => Tile::Tunnel,
        _ => Tile::StairDown,
    };
    *map.tile_at_mut(x, y) = tile;
    map.add_free_warp(x, y);
    true
}

/// One try of the warp placement on the tiles and the free warps of a map
/// `w` columns wide, with the draw `(x, y, t)` (see `try_place_warp`): the
/// tiles and free warps afterwards, and whether a warp was placed.
pub open spec fn placement_step(tiles: Seq<Tile>, free: Set<u32>, w: u16, draw: (u16, u16, u8)) -> (
    Seq<Tile>,
    Set<u32>,
    bool,
) {
    let (x, y, t) = draw;
    let i = y * w + x;
    if tiles[i].passable() && tiles[i].level_delta() is None {
        (tiles.update(i, placed_warp(t)), free.insert(key_of(Vec2 { x, y })), true)
    } else {
        (tiles, free, false)
    }
}

/// The warp placement over the first `n` draws: each draw is tried while
/// fewer than `count` warps are placed, the rest are not looked at. The
/// tiles and free warps afterwards, and the number of warps placed.
pub open spec fn placement_run(
    tiles: Seq<Tile>,
    free: Set<u32>,
    w: u16,
    draws: Seq<(u16, u16, u8)>,
    count: int,
    n: int,
) -> (Seq<Tile>, Set<u32>, int)
    decreases n,
{
    if n <= 0 {
        (tiles, free, 0)
    } else {
        let (t1, f1, p1) = placement_run(tiles, free, w, draws, count, n - 1);
        if p1 >= count {
            (t1, f1, p1)
        } else {
            let (t2, f2, ok) = placement_step(t1, f1, w, draws[n - 1]);
            (t2, f2, p1 + if ok {
                1int
            } else {
                0int
            })
        }
    }
}

/// Places up to `count` warps to other levels on the map, trying the drawn
/// cells `(x, y, t)` one after the other (see `try_place_warp`) until
/// `count` warps stand; draws after that are not used. Returns how many
/// were placed: `count`, unless the draws ran out first. Nothing but the
/// tiles and the free warps changes.
pub fn place_warps(map: &mut GameMap, count: u16, draws: &Vec<(u16, u16, u8)>) -> (placed: u16)
    requires
        old(map).wf(),
        forall|j: int|
            0 <= j < draws@.len() ==> old(map).in_bounds(
                (#[trigger] draws@[j]).0 as int,
                draws@[j].1 as int,
            ),
    ensures
        final(map).wf(),
        (final(map).tiles_view(), final(map).free_warps_view(), placed as int) == placement_run(
            old(map).tiles_view(),
            old(map).free_warps_view(),
            old(map).spec_width(),
            draws@,
            count as int,
            draws@.len() as int,
        ),
        placed <= count,
        final(map).spec_width() == old(map).spec_width(),
        final(map).spec_height() == old(map).spec_height(),
        final(map).warps_view() == old(map).warps_view(),
        final(map).entities_view() == old(map).entities_view(),
        final(map).next_id() == old(map).next_id(),
{
    let ghost pre = *old(map);
    let mut placed: u16 = 0;
    let mut i: usize = 0;
    while i < draws.len()
        invariant
            i <= draws@.len(),
            map.wf(),
            placed <= count,
            forall|j: int|
                0 <= j < draws@.len() ==> pre.in_bounds(
                    (#[trigger] draws@[j]).0 as int,
                    draws@[j].1 as int,
                ),
            (map.tiles_view(), map.free_warps_view(), placed as int) == placement_run(
                pre.tiles_view(),
                pre.free_warps_view(),
                pre.spec_width(),
                draws@,
                count as int,
                i as int,
            ),
            map.spec_width() == pre.spec_width(),
            map.spec_height() == pre.spec_height(),
            map.warps_view() == pre.warps_view(),
            map.entities_view() == pre.entities_view(),
            map.next_id() == pre.next_id(),
        decreases draws@.len() - i,
    {
        if placed < count {
            let (x, y, t) = draws[i];
            proof {
                assert(draws@[i as int] == (x, y, t));
            }
            if try_place_warp(map, x, y, t) {
                placed += 1;
            }
        }
        i += 1;
    }
    placed
}

/// Whether `x`, `y` lies on a 50 by 50 grid.
pub open spec fn on_test_grid(x: u16, y: u16) -> bool {
    x < 50 && y < 50
}

/// Lays out the level-based test map.
fn generate_test(map: GameMap, direction: Option<i32>) -> (r: GameMap)
    requires
        map.wf(),
        reversible(direction),
        map.spec_width() == 50,
        map.spec_height() == 50,
    ensures
        r.wf(),
        r.spec_width() == map.spec_width(),
        r.spec_height() == map.spec_height(),
        r.warps_view() == map.warps_view(),
        r.free_warps_view() == map.free_warps_view(),
        r.entities_view() == map.entities_view(),
        r.next_id() == map.next_id(),
        exists|rand_val: u16| #[trigger] is_level_test_layout(r, rand_val, direction),
{
    let mut map = map;
    let rand_val: u16 = random_u32_in(0, 3) as u16;
    map.fill(
        move |x: u16, y: u16| -> (t: Tile)
            requires on_test_grid(x, y)
            ensures t == level_test_tile(x, y, rand_val, direction)
            {
                if let Some(direction) = direction {
                    if x == 10 && y == 10 {
                        return Tile::warp_from_direction(-direction);
                    }
                }
                if x % 18 == 4 && y % 18 == 4 {
                    match ((x + y) / 18 + rand_val) % 3 {
                        0 => Tile::StairDown,
                        1 => Tile::StairUp,
                        _ => Tile::Tunnel,
                    }
                } else if x % 6 < 3 && y % 6 < 3 {
                    Tile::Wall
                } else {
                    Tile::Floor
                }
            },
    );
    assert(is_level_test_layout(map, rand_val, direction));
    map
}

} // verus!
