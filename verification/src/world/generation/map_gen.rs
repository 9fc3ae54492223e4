use vstd::prelude::*;

use crate::random::random_ratio;
use crate::random::random_u32_in;
use crate::world::entity::Entity;
use crate::world::game_map::GameMap;
use crate::world::game_map::lemma_cell_index;
use crate::world::tile::Tile;
use crate::world::world::TargetInfo;

verus! {

/// The kinds of map that the generator knows.
#[derive(Debug, Clone, Copy, Default, PartialEq, Eq, Structural)]
pub enum MapType {
    #[default]
    Test,
    Initial,
    RockCave,
    FloodedRockCave,
    RockCaveWithLakes,
    RockCaveWithLava,
    Labyrinth,
}

impl MapType {
    /// The tile that a fresh map of this kind is filled with.
    pub open spec fn base_tile(self) -> Tile {
        match self {
            MapType::Test => Tile::Floor,
            MapType::Initial => Tile::Floor,
            MapType::Labyrinth => Tile::Floor,
            _ => Tile::RockFloor,
        }
    }

    /// The tile that a fresh map of this kind is filled with: floor for the
    /// test, initial and labyrinth maps, rock floor for the caves.
    pub fn default_tile(&self) -> (r: Tile)
        ensures
            r == self.base_tile(),
    {
        match self {
            MapType::Test => Tile::Floor,
            MapType::Initial => Tile::Floor,
            MapType::Labyrinth => Tile::Floor,
            MapType::RockCave => Tile::RockFloor,
            MapType::FloodedRockCave => Tile::RockFloor,
            MapType::RockCaveWithLakes => Tile::RockFloor,
            MapType::RockCaveWithLava => Tile::RockFloor,
        }
    }
}

/// The magnitude of a level, cut to 16 bits.
pub open spec fn level_span(level: i32) -> int {
    (if level < 0 {
        -level
    } else {
        level as int
    }) % 65536
}

/// The side of a square test map for a level.
pub open spec fn test_side(level: i32) -> int {
    15 + 6 * level_span(level)
}

/// The size of a new map: a square growing with the level for the test map,
/// a random size from 30 to 50 per side for the initial map, and from 10 to
/// 99 per side for the others.
fn get_size_for(map_type: MapType, level: i32) -> (r: (u16, u16))
    requires
        map_type is Test ==> test_side(level) <= u16::MAX,
    ensures
        map_type is Test ==> r.0 == test_side(level) && r.1 == test_side(level),
        map_type is Initial ==> 30 <= r.0 <= 50 && 30 <= r.1 <= 50,
        !(map_type is Test) && !(map_type is Initial) ==> 10 <= r.0 <= 99 && 10 <= r.1 <= 99,
{
    match map_type {
        MapType::Test => {
            let magnitude: u32 = if level < 0 {
                (0i64 - level as i64) as u32
            } else {
                level as u32
            };
            let span: u16 = (magnitude % 65536) as u16;
            (15 + span * 6, 15 + span * 6)
        },
        MapType::Initial => {
            let w: u16 = random_u32_in(30, 51) as u16;
            let h: u16 = random_u32_in(30, 51) as u16;
            (w, h)
        },
        _ => {
            let w: u16 = random_u32_in(10, 100) as u16;
            let h: u16 = random_u32_in(10, 100) as u16;
            (w, h)
        },
    }
}

/// In a grid of at least one cell per side whose cell count fits in a
/// `u16`, the sum of a column and a row fits in a `u16` too.
proof fn lemma_coordinate_sum(w: int, h: int, x: int, y: int)
    requires
        0 <= x < w,
        0 <= y < h,
        w * h <= u16::MAX,
    ensures
        x + y <= u16::MAX,
{
    assert((w - 1) * (h - 1) >= 0) by (nonlinear_arith)
        requires
            w >= 1,
            h >= 1,
    ;
    assert(w + h <= w * h + 1) by (nonlinear_arith)
        requires
            (w - 1) * (h - 1) >= 0,
    ;
}

/// Whether the sum of a column and a row fits in a `u16`.
pub open spec fn sum_fits(x: u16, y: u16) -> bool {
    x + y <= u16::MAX
}

/// The tile of the test map at `x`, `y`: every 18 cells along both axes a
/// warp tile (stairs down, stairs up or a tunnel, cycling with the diagonal
/// and the random offset `rand_val`), elsewhere 3 by 3 blocks of wall every
/// 6 cells on floor.
pub open spec fn test_tile(x: u16, y: u16, rand_val: u16) -> Tile {
    if x % 18 == 4 && y % 18 == 4 {
        let v = ((x + y) / 18 + rand_val) % 3;
        if v == 0 {
            Tile::StairDown
        } else if v == 1 {
            Tile::StairUp
        } else {
            Tile::Tunnel
        }
    } else if x % 6 < 3 && y % 6 < 3 {
        Tile::Wall
    } else {
        Tile::Floor
    }
}

/// Every tile of the map is the test tile for some random offset below 3.
pub open spec fn is_test_layout(m: GameMap, rand_val: u16) -> bool {
    &&& rand_val < 3
    &&& forall|x: u16, y: u16|
        x < m.spec_width() && y < m.spec_height() ==> #[trigger] m.tile(x as int, y as int)
            == test_tile(x, y, rand_val)
}

/// Lays out the test map: a grid of walls with warp tiles.
fn generate_test(map: &mut GameMap)
    requires
        old(map).wf(),
    ensures
        final(map).wf(),
        final(map).spec_width() == old(map).spec_width(),
        final(map).spec_height() == old(map).spec_height(),
        final(map).warps_view() == old(map).warps_view(),
        final(map).free_warps_view() == old(map).free_warps_view(),
        final(map).entities_view() == old(map).entities_view(),
        final(map).next_id() == old(map).next_id(),
        exists|rand_val: u16| #[trigger] is_test_layout(*final(map), rand_val),
{
    let rand_val: u16 = random_u32_in(0, 3) as u16;
    let ghost w = map.spec_width() as int;
    let ghost h = map.spec_height() as int;
    assert forall|x: u16, y: u16| x < w && y < h implies #[trigger] sum_fits(x, y) by {
        lemma_coordinate_sum(w, h, x as int, y as int);
    }
    map.fill(
        move |x: u16, y: u16| -> (t: Tile)
            requires sum_fits(x, y)
            ensures t == test_tile(x, y, rand_val)
            {
                if x % 18 == 4 && y % 18 == 4 {
                    match ((x + y) / 18 + rand_val) % 3 {
                        0 => Tile::StairDown,
                        1 => Tile::StairUp,
                        _ => Tile::Tunnel,
                    }
                } else if x % 6 < 3 && y % 6 < 3 {
                    Tile::Wall
                } else {
                    Tile::Floor
                }
            },
    );
    assert(is_test_layout(*map, rand_val));
}


/// Whether the cell at `x`, `y` lies in the two-cell frame along the edge of
/// a `w` by `h` map.
pub open spec fn on_border(w: int, h: int, x: int, y: int) -> bool {
    x < 2 || x > w - 3 || y < 2 || y > h - 3
}

/// How many of the first `k` cells of the 3 by 3 block around `x`, `y` are
/// marked in `seeds` (row-major, `w` cells per row); the block is walked
/// column by column, from the top left.
pub open spec fn seed_count(w: int, seeds: Seq<bool>, x: int, y: int, k: int) -> int
    decreases k,
{
    if k <= 0 {
        0
    } else {
        seed_count(w, seeds, x, y, k - 1) + if seeds[(y + (k - 1) % 3 - 1) * w + (x + (k - 1) / 3
            - 1)] {
            1int
        } else {
            0int
        }
    }
}

/// Whether the smoothed tree map has a tree at `x`, `y`: inside the outer
/// ring, when more than 4 of the 9 cells of the block around it are marked;
/// on the outer ring, always.
pub open spec fn smoothed(w: int, h: int, seeds: Seq<bool>, x: int, y: int) -> bool {
    if 1 <= x < w - 1 && 1 <= y < h - 1 {
        seed_count(w, seeds, x, y, 9) > 4
    } else {
        true
    }
}

/// One step of cellular smoothing of a `width` by `height` tree map: a
/// cell inside the outer ring holds a tree when more than 4 of the 9 cells
/// around it (itself included) are marked in `seeds`; the outer ring is all
/// trees.
pub fn smooth_trees(width: u16, height: u16, seeds: &Vec<bool>) -> (r: Vec<bool>)
    requires
        1 <= width,
        1 <= height,
        width * height <= u16::MAX,
        seeds@.len() == width * height,
    ensures
        r@.len() == width * height,
        forall|x: int, y: int|
            0 <= x < width && 0 <= y < height ==> #[trigger] r@[y * width + x] == smoothed(
                width as int,
                height as int,
                seeds@,
                x,
                y,
            ),
{
    let w = width;
    let h = height;
    let tile_count = (w * h) as usize;
    let mut buf2: Vec<bool> = Vec::with_capacity(tile_count);
    let mut i: usize = 0;
    while i < tile_count
        invariant
            i <= tile_count,
            tile_count == w * h,
            buf2@ == Seq::new(i as nat, |j: int| true),
        decreases tile_count - i,
    {
        buf2.push(true);
        i += 1;
    }
    assert forall|x2: int, y2: int| 0 <= x2 < w && 0 <= y2 < h implies #[trigger] buf2@[y2 * w
        + x2] == true by {
        lemma_cell_index(w as int, h as int, x2, y2);
    }
    let mut x: u16 = 1;
    while x < w - 1
        invariant
            1 <= x,
            x <= w - 1 || x == 1,
            1 <= w,
            1 <= h,
            w * h <= u16::MAX,
            seeds@.len() == w * h,
            buf2@.len() == w * h,
            forall|x2: int, y2: int|
                0 <= x2 < w && 0 <= y2 < h ==> #[trigger] buf2@[y2 * w + x2] == (if 1 <= x2 < x
                    && 1 <= y2 < h - 1 {
                    smoothed(w as int, h as int, seeds@, x2, y2)
                } else {
                    true
                }),
        decreases w - x,
    {
        let mut y: u16 = 1;
        while y < h - 1
            invariant
                1 <= y,
                y <= h - 1 || y == 1,
                1 <= w,
                1 <= h,
                1 <= x < w - 1,
                w * h <= u16::MAX,
                seeds@.len() == w * h,
                buf2@.len() == w * h,
                forall|x2: int, y2: int|
                    0 <= x2 < w && 0 <= y2 < h ==> #[trigger] buf2@[y2 * w + x2] == (if (1 <= x2
                        < x && 1 <= y2 < h - 1) || (x2 == x && 1 <= y2 < y) {
                        smoothed(w as int, h as int, seeds@, x2, y2)
                    } else {
                        true
                    }),
            decreases h - y,
        {
            let mut count: u16 = 0;
            let mut dx: i32 = -1;
            while dx <= 1
                invariant
                    -1 <= dx <= 2,
                    1 <= x < w - 1,
                    1 <= y < h - 1,
                    w * h <= u16::MAX,
                    seeds@.len() == w * h,
                    count == seed_count(w as int, seeds@, x as int, y as int, (dx + 1) * 3),
                    count <= (dx + 1) * 3,
                decreases 2 - dx,
            {
                let mut dy: i32 = -1;
                while dy <= 1
                    invariant
                        -1 <= dx <= 1,
                        -1 <= dy <= 2,
                        1 <= x < w - 1,
                        1 <= y < h - 1,
                        w * h <= u16::MAX,
                        seeds@.len() == w * h,
                        count == seed_count(
                            w as int,
                            seeds@,
                            x as int,
                            y as int,
                            (dx + 1) * 3 + dy + 1,
                        ),
                        count <= (dx + 1) * 3 + dy + 1,
                    decreases 2 - dy,
                {
                    let xx = x as i32 + dx;
                    let yy = y as i32 + dy;
                    proof {
                        lemma_cell_index(w as int, h as int, xx as int, yy as int);
                        let k = (dx + 1) * 3 + dy + 1;
                        assert(k % 3 == dy + 1 && k / 3 == dx + 1);
                    }
                    if seeds[(yy * (w as i32) + xx) as usize] {
                        count += 1;
                    }
                    dy += 1;
                }
                dx += 1;
            }
            proof {
                lemma_cell_index(w as int, h as int, x as int, y as int);
            }
            buf2.set((y * w + x) as usize, count > 4);
            assert forall|x2: int, y2: int| 0 <= x2 < w && 0 <= y2 < h implies #[trigger] buf2@[y2
                * w + x2] == (if (1 <= x2 < x && 1 <= y2 < h - 1) || (x2 == x && 1 <= y2 < y + 1) {
                smoothed(w as int, h as int, seeds@, x2, y2)
            } else {
                true
            }) by {
                lemma_cell_index(w as int, h as int, x2, y2);
            }
            y += 1;
        }
        x += 1;
    }
    buf2
}

/// The tile of the initial map at `x`, `y`: the stairs down at the
/// entrance; rock floor where the distance to the entrance, scaled per axis
/// by `x_scale` and `y_scale` percent and rounded down per axis, is below 5;
/// elsewhere a tree where `is_tree`, else grass.
pub open spec fn initial_tile_spec(
    x: u16,
    y: u16,
    entrance_x: u16,
    entrance_y: u16,
    x_scale: u16,
    y_scale: u16,
    is_tree: bool,
) -> Tile {
    if x == entrance_x && y == entrance_y {
        Tile::StairDown
    } else {
        let dx = abs_diff(entrance_x, x) * x_scale / 100;
        let dy = abs_diff(entrance_y, y) * y_scale / 100;
        if dx * dx + dy * dy < 25 {
            Tile::RockFloor
        } else if is_tree {
            Tile::Tree
        } else {
            Tile::Grass
        }
    }
}

/// The distance between two numbers.
pub open spec fn abs_diff(a: u16, b: u16) -> int {
    if a < b {
        b - a
    } else {
        a - b
    }
}

/// Whether the `u16` arithmetic of `initial_tile` stays in range.
pub open spec fn initial_tile_fits(
    x: u16,
    y: u16,
    entrance_x: u16,
    entrance_y: u16,
    x_scale: u16,
    y_scale: u16,
) -> bool {
    let dx = abs_diff(entrance_x, x) * x_scale / 100;
    let dy = abs_diff(entrance_y, y) * y_scale / 100;
    &&& abs_diff(entrance_x, x) * x_scale <= u16::MAX
    &&& abs_diff(entrance_y, y) * y_scale <= u16::MAX
    &&& dx * dx + dy * dy <= u16::MAX
}

/// The tile of the initial map at `x`, `y`; see `initial_tile_spec`.
pub fn initial_tile(
    x: u16,
    y: u16,
    entrance_x: u16,
    entrance_y: u16,
    x_scale: u16,
    y_scale: u16,
    is_tree: bool,
) -> (r: Tile)
    requires
        initial_tile_fits(x, y, entrance_x, entrance_y, x_scale, y_scale),
    ensures
        r == initial_tile_spec(x, y, entrance_x, entrance_y, x_scale, y_scale, is_tree),
{
    if x == entrance_x && y == entrance_y {
        return Tile::StairDown;
    }
    let adx: u16 = if entrance_x < x {
        x - entrance_x
    } else {
        entrance_x - x
    };
    let ady: u16 = if entrance_y < y {
        y - entrance_y
    } else {
        entrance_y - y
    };
    let dx = adx * x_scale / 100;
    let dy = ady * y_scale / 100;
    assert(dx * dx + dy * dy <= u16::MAX);
    assert(dx * dx <= u16::MAX) by (nonlinear_arith)
        requires
            dx * dx + dy * dy <= u16::MAX,
            dy * dy >= 0,
    ;
    let dist_sq = dx * dx + dy * dy;
    if dist_sq < 25 {
        return Tile::RockFloor;
    }
    if is_tree {
        return Tile::Tree;
    }
    Tile::Grass
}

/// Whether `x`, `y` is a cell of a `w` by `h` grid.
pub open spec fn in_grid(w: u16, h: u16, x: u16, y: u16) -> bool {
    x < w && y < h
}

/// The map is laid out as the initial map from the marks `seeds` (one per
/// cell, all set on the border frame), an entrance at `entrance_x`,
/// `entrance_y` at least 4 cells from the edge, and scales between 60 and
/// 140 percent: every tile is `initial_tile_spec` of its cell, with a tree
/// where the smoothed marks hold one.
pub open spec fn is_initial_layout(
    m: GameMap,
    seeds: Seq<bool>,
    entrance_x: u16,
    entrance_y: u16,
    x_scale: u16,
    y_scale: u16,
) -> bool {
    let w = m.spec_width() as int;
    let h = m.spec_height() as int;
    &&& seeds.len() == w * h
    &&& 4 <= entrance_x < w - 4
    &&& 4 <= entrance_y < h - 4
    &&& 60 <= x_scale <= 140
    &&& 60 <= y_scale <= 140
    &&& forall|x: int, y: int|
        0 <= x < w && 0 <= y < h && on_border(w, h, x, y) ==> #[trigger] seeds[y * w + x]
    &&& forall|x: u16, y: u16|
        x < w && y < h ==> #[trigger] m.tile(x as int, y as int) == initial_tile_spec(
            x,
            y,
            entrance_x,
            entrance_y,
            x_scale,
            y_scale,
            smoothed(w, h, seeds, x as int, y as int),
        )
}

/// With coordinates below 100 and scales up to 140 percent, the arithmetic
/// of `initial_tile` stays in range.
proof fn lemma_initial_tile_fits(x: u16, y: u16, ex: u16, ey: u16, xs: u16, ys: u16)
    requires
        x < 100,
        y < 100,
        ex < 100,
        ey < 100,
        xs <= 140,
        ys <= 140,
    ensures
        initial_tile_fits(x, y, ex, ey, xs, ys),
{
    let ax = abs_diff(ex, x);
    let ay = abs_diff(ey, y);
    assert(ax * xs <= 99 * 140) by (nonlinear_arith)
        requires
            0 <= ax <= 99,
            0 <= xs <= 140,
    ;
    assert(ay * ys <= 99 * 140) by (nonlinear_arith)
        requires
            0 <= ay <= 99,
            0 <= ys <= 140,
    ;
    let dx = ax * xs / 100;
    let dy = ay * ys / 100;
    assert(dx * dx <= 138 * 138) by (nonlinear_arith)
        requires
            0 <= dx <= 138,
    ;
    assert(dy * dy <= 138 * 138) by (nonlinear_arith)
        requires
            0 <= dy <= 138,
    ;
}

/// Lays out the initial map: a forest grown by smoothing random marks (one
/// cell in three, and the whole border frame), with a clearing of rock floor
/// around stairs down at a random entrance.
fn generate_initial(map: &mut GameMap)
    requires
        old(map).wf(),
        9 <= old(map).spec_width() <= 100,
        9 <= old(map).spec_height() <= 100,
    ensures
        final(map).wf(),
        final(map).spec_width() == old(map).spec_width(),
        final(map).spec_height() == old(map).spec_height(),
        final(map).warps_view() == old(map).warps_view(),
        final(map).free_warps_view() == old(map).free_warps_view(),
        final(map).entities_view() == old(map).entities_view(),
        final(map).next_id() == old(map).next_id(),
        exists|seeds: Seq<bool>, entrance_x: u16, entrance_y: u16, x_scale: u16, y_scale: u16|
            #[trigger] is_initial_layout(
                *final(map),
                seeds,
                entrance_x,
                entrance_y,
                x_scale,
                y_scale,
            ),
{
    let (w, h) = map.get_size();
    let tile_count = (w * h) as usize;
    let mut buf1: Vec<bool> = Vec::with_capacity(tile_count);
    let mut i: usize = 0;
    while i < tile_count
        invariant
            i <= tile_count,
            tile_count == w * h,
            buf1@.len() == i,
        decreases tile_count - i,
    {
        buf1.push(false);
        i += 1;
    }
    for x in 0..w
        invariant
            9 <= w <= 100,
            9 <= h <= 100,
            w * h <= u16::MAX,
            buf1@.len() == w * h,
            forall|x2: int, y2: int|
                0 <= x2 < x && 0 <= y2 < h && on_border(w as int, h as int, x2, y2)
                    ==> #[trigger] buf1@[y2 * w + x2],
    {
        for y in 0..h
            invariant
                9 <= w <= 100,
                9 <= h <= 100,
                w * h <= u16::MAX,
                x < w,
                buf1@.len() == w * h,
                forall|x2: int, y2: int|
                    0 <= x2 < w && 0 <= y2 < h && (x2 < x || (x2 == x && y2 < y)) && on_border(
                        w as int,
                        h as int,
                        x2,
                        y2,
                    ) ==> #[trigger] buf1@[y2 * w + x2],
        {
            proof {
                lemma_cell_index(w as int, h as int, x as int, y as int);
            }
            let idx = (y * w + x) as usize;
            if x < 2 || x > w - 3 || y < 2 || y > h - 3 {
                buf1.set(idx, true);
            } else {
                let mark = random_ratio(1, 3);
                buf1.set(idx, mark);
            }
            assert forall|x2: int, y2: int|
                0 <= x2 < w && 0 <= y2 < h && (x2 < x || (x2 == x && y2 < y + 1)) && on_border(
                    w as int,
                    h as int,
                    x2,
                    y2,
                ) implies #[trigger] buf1@[y2 * w + x2] by {
                lemma_cell_index(w as int, h as int, x2, y2);
            }
        }
    }
    let trees = smooth_trees(w, h, &buf1);
    let entrance_x = random_u32_in(4, (w - 4) as u32) as u16;
    let entrance_y = random_u32_in(4, (h - 4) as u32) as u16;
    let x_scale = random_u32_in(60, 141) as u16;
    let y_scale = random_u32_in(60, 141) as u16;
    let trees_ref = &trees;
    map.fill(
        move |x: u16, y: u16| -> (t: Tile)
            requires in_grid(w, h, x, y)
            ensures t == initial_tile_spec(x, y, entrance_x, entrance_y, x_scale, y_scale, trees_ref@[y * w + x])
            {
                proof {
                    lemma_cell_index(w as int, h as int, x as int, y as int);
                    assert(w * h <= 100 * 100) by (nonlinear_arith)
                        requires
                            w <= 100,
                            h <= 100,
                    ;
                    lemma_initial_tile_fits(x, y, entrance_x, entrance_y, x_scale, y_scale);
                }
                initial_tile(
                    x,
                    y,
                    entrance_x,
                    entrance_y,
                    x_scale,
                    y_scale,
                    trees_ref[(y * w + x) as usize],
                )
            },
    );
    assert(is_initial_layout(*map, buf1@, entrance_x, entrance_y, x_scale, y_scale)) by {
        assert forall|x: u16, y: u16| x < w && y < h implies #[trigger] map.tile(
            x as int,
            y as int,
        ) == initial_tile_spec(
            x,
            y,
            entrance_x,
            entrance_y,
            x_scale,
            y_scale,
            smoothed(w as int, h as int, buf1@, x as int, y as int),
        ) by {
            assert(in_grid(w, h, x, y));
        }
    }
}

/// A new map of the given kind for the given level, without warps and
/// entities: a test map (see `test_tile`) with a side that grows with the
/// level; an initial map (see `is_initial_layout`) of 30 to 50 cells per
/// side; any other kind plain, of 10 to 99 cells per side, filled with its
/// base tile.
pub fn generate_map(gen_type: MapType, level: i32) -> (r: GameMap)
    requires
        gen_type is Test ==> test_side(level) <= 255,
    ensures
        r.wf(),
        r.warps_view() == Map::<u32, TargetInfo>::empty(),
        r.free_warps_view() == Set::<u32>::empty(),
        r.entities_view() == Map::<u32, Entity>::empty(),
        r.next_id() == 0,
        gen_type is Test ==> {
            &&& r.spec_width() == test_side(level)
            &&& r.spec_height() == test_side(level)
            &&& exists|rand_val: u16| #[trigger] is_test_layout(r, rand_val)
        },
        gen_type is Initial ==> {
            &&& 30 <= r.spec_width() <= 50
            &&& 30 <= r.spec_height() <= 50
            &&& exists|seeds: Seq<bool>, entrance_x: u16, entrance_y: u16, x_scale: u16, y_scale: u16|
                #[trigger] is_initial_layout(r, seeds, entrance_x, entrance_y, x_scale, y_scale)
        },
        !(gen_type is Test) && !(gen_type is Initial) ==> {
            &&& 10 <= r.spec_width() <= 99
            &&& 10 <= r.spec_height() <= 99
            &&& forall|x: u16, y: u16|
                x < r.spec_width() && y < r.spec_height() ==> #[trigger] r.tile(x as int, y as int)
                    == gen_type.base_tile()
        },
{
    let (width, height) = get_size_for(gen_type, level);
    assert(width * height <= u16::MAX) by (nonlinear_arith)
        requires
            (width <= 99 && height <= 99) || (width == height && width <= 255),
    ;
    let mut map = GameMap::new(width, height, &gen_type.default_tile());
    match gen_type {
        MapType::Initial => generate_initial(&mut map),
        MapType::Test => generate_test(&mut map),
        _ => {},
    }
    proof {
        if !(gen_type is Test) && !(gen_type is Initial) {
            assert forall|x: u16, y: u16| x < width && y < height implies #[trigger] map.tile(
                x as int,
                y as int,
            ) == gen_type.base_tile() by {
                lemma_cell_index(width as int, height as int, x as int, y as int);
            }
        }
    }
    map
}

} // verus!
