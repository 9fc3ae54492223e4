use term_cave_crawl_rpg::world::game_map::GameMap;
use term_cave_crawl_rpg::world::generation;
use term_cave_crawl_rpg::world::generation::place_warps;
use term_cave_crawl_rpg::world::generation::try_place_warp;
use term_cave_crawl_rpg::world::generation::map_gen;
use term_cave_crawl_rpg::world::generation::map_gen::MapType;
use term_cave_crawl_rpg::world::generation::map_gen::initial_tile;
use term_cave_crawl_rpg::world::generation::map_gen::smooth_trees;
use term_cave_crawl_rpg::world::tile::Tile;

fn expected_test_tile(x: u16, y: u16, rand_val: u16) -> Tile {
    if x % 18 == 4 && y % 18 == 4 {
        match ((x + y) / 18 + rand_val) % 3 {
            0 => Tile::StairDown,
            1 => Tile::StairUp,
            _ => Tile::Tunnel,
        }
    } else if x % 6 < 3 && y % 6 < 3 {
        Tile::Wall
    } else {
        Tile::Floor
    }
}

#[test]
fn test_map_layout() {
    let map = map_gen::generate_map(MapType::Test, 0);
    assert_eq!(map.get_size(), (15, 15));
    assert_eq!(*map.tile_at(0, 0), Tile::Wall);
    assert_eq!(*map.tile_at(3, 0), Tile::Floor);
    assert_eq!(*map.tile_at(6, 8), Tile::Wall);
    let warp = *map.tile_at(4, 4);
    assert!(warp.get_level_delta().is_some());
    // the random offset is one of three; the layout matches exactly one of them
    let matching = (0..3u16)
        .filter(|rv| (0..15u16).all(|x| (0..15u16).all(|y| *map.tile_at(x, y) == expected_test_tile(x, y, *rv))))
        .count();
    assert!(matching >= 1);
    assert!(map.get_entity(0).is_none());
}

#[test]
fn test_map_grows_with_level() {
    assert_eq!(map_gen::generate_map(MapType::Test, 2).get_size(), (27, 27));
    assert_eq!(map_gen::generate_map(MapType::Test, -3).get_size(), (33, 33));
}

#[test]
fn base_tiles() {
    assert_eq!(MapType::Test.default_tile(), Tile::Floor);
    assert_eq!(MapType::Initial.default_tile(), Tile::Floor);
    assert_eq!(MapType::Labyrinth.default_tile(), Tile::Floor);
    assert_eq!(MapType::RockCave.default_tile(), Tile::RockFloor);
    assert_eq!(MapType::RockCaveWithLava.default_tile(), Tile::RockFloor);
    assert_eq!(MapType::default(), MapType::Test);
}

#[test]
fn caves_are_plain_rock() {
    let map = map_gen::generate_map(MapType::FloodedRockCave, 4);
    let (w, h) = map.get_size();
    assert!((10..100).contains(&w) && (10..100).contains(&h));
    for x in 0..w {
        for y in 0..h {
            assert_eq!(*map.tile_at(x, y), Tile::RockFloor);
        }
    }
}

#[test]
fn initial_map_shape() {
    let map = map_gen::generate_map(MapType::Initial, 0);
    let (w, h) = map.get_size();
    assert!((30..=50).contains(&w) && (30..=50).contains(&h));
    let mut stairs = 0;
    for x in 0..w {
        for y in 0..h {
            let t = *map.tile_at(x, y);
            assert!(matches!(t, Tile::StairDown | Tile::RockFloor | Tile::Tree | Tile::Grass));
            if t == Tile::StairDown {
                stairs += 1;
                assert!(x >= 4 && x < w - 4 && y >= 4 && y < h - 4);
                // the cells next to the entrance are cleared
                assert_eq!(*map.tile_at(x + 1, y), Tile::RockFloor);
            }
        }
    }
    assert_eq!(stairs, 1);
    // the far corner is at least 25 cells from the entrance: never cleared,
    // and the outer ring is all forest
    assert_eq!(*map.tile_at(w - 1, h - 1), Tile::Tree);
}

#[test]
fn smoothing_counts_the_block() {
    // a 4 by 4 grid, row-major; marks in the top-left 2 by 2 block only
    let mut seeds = vec![false; 16];
    for (x, y) in [(0, 0), (1, 0), (0, 1), (1, 1), (2, 1)] {
        seeds[y * 4 + x] = true;
    }
    let trees = smooth_trees(4, 4, &seeds);
    // the outer ring is all trees
    for i in [0, 1, 2, 3, 4, 7, 8, 11, 12, 13, 14, 15] {
        assert!(trees[i]);
    }
    // (1, 1): block holds (0,0) (1,0) (2,0)? no; (0,1) (1,1) (2,1) (0,0) (1,0): 5 marks > 4
    assert!(trees[1 * 4 + 1]);
    // (2, 1): block holds (1,0) (1,1) (2,1): 3 marks
    assert!(!trees[1 * 4 + 2]);
    // (1, 2) and (2, 2): 3 and 2 marks
    assert!(!trees[2 * 4 + 1]);
    assert!(!trees[2 * 4 + 2]);
}

#[test]
fn initial_tiles() {
    assert_eq!(initial_tile(10, 10, 10, 10, 100, 100, true), Tile::StairDown);
    // distance 4 along x: rock floor
    assert_eq!(initial_tile(14, 10, 10, 10, 100, 100, true), Tile::RockFloor);
    // distance 5 along x: outside the clearing
    assert_eq!(initial_tile(15, 10, 10, 10, 100, 100, true), Tile::Tree);
    assert_eq!(initial_tile(15, 10, 10, 10, 100, 100, false), Tile::Grass);
    // scaled down to 60 percent, 7 cells count as 4
    assert_eq!(initial_tile(17, 10, 10, 10, 60, 100, false), Tile::RockFloor);
    // (3, 4) scaled by 100 percent: 9 + 16 = 25, not below 25
    assert_eq!(initial_tile(13, 14, 10, 10, 100, 100, false), Tile::Grass);
}

#[test]
fn level_test_map_has_the_way_back() {
    let down = generation::generate_map(generation::MapType::Test, 1, Some(1));
    assert_eq!(down.get_size(), (50, 50));
    assert_eq!(*down.tile_at(10, 10), Tile::StairUp);
    let up = generation::generate_map(generation::MapType::Test, 1, Some(-1));
    assert_eq!(*up.tile_at(10, 10), Tile::StairDown);
    let none = generation::generate_map(generation::MapType::Test, 1, None);
    assert_eq!(*none.tile_at(10, 10), Tile::Floor);
    assert_eq!(*none.tile_at(0, 0), Tile::Wall);
    let cave = generation::generate_map(generation::MapType::RockCave, 1, None);
    assert_eq!(*cave.tile_at(0, 0), Tile::RockFloor);
}

#[test]
fn smoothing_thin_grids_keeps_every_tree() {
    let trees = smooth_trees(1, 3, &vec![false, false, false]);
    assert_eq!(trees, vec![true, true, true]);
    let trees = smooth_trees(3, 3, &vec![true; 9]);
    assert_eq!(trees, vec![true; 9]);
    let mut seeds = vec![true; 9];
    seeds[4] = false;
    seeds[0] = false;
    seeds[1] = false;
    seeds[2] = false;
    // the centre sees 5 marks of 9: still a tree
    assert!(smooth_trees(3, 3, &seeds)[4]);
    seeds[3] = false;
    assert!(!smooth_trees(3, 3, &seeds)[4]);
}

#[test]
fn generated_maps_vary() {
    // sizes are drawn at random: twenty caves of one and the same size would
    // be a sign that no randomness reaches the generator
    let sizes: Vec<(u16, u16)> = (0..20).map(|_| map_gen::generate_map(MapType::RockCave, 0).get_size()).collect();
    assert!(sizes.iter().any(|s| *s != sizes[0]));
    // the warp tiles of the test map cycle with a random offset
    let warps: Vec<Tile> = (0..30).map(|_| *map_gen::generate_map(MapType::Test, 0).tile_at(4, 4)).collect();
    assert!(warps.iter().any(|t| *t != warps[0]));
    // the forest of the initial map comes from random marks
    let a = map_gen::generate_map(MapType::Initial, 0);
    let b = map_gen::generate_map(MapType::Initial, 0);
    let differs = a.get_size() != b.get_size()
        || (0..a.get_width()).any(|x| (0..a.get_height()).any(|y| a.tile_at(x, y) != b.tile_at(x, y)));
    assert!(differs);
}

#[test]
fn largest_test_map() {
    let map = map_gen::generate_map(MapType::Test, 40);
    assert_eq!(map.get_size(), (255, 255));
    assert_eq!(*map.tile_at(0, 0), Tile::Wall);
}

#[test]
fn warps_go_only_on_free_passable_cells() {
    let mut map = GameMap::new(3, 3, &Tile::Floor);
    *map.tile_at_mut(1, 1) = Tile::Wall;
    assert!(!try_place_warp(&mut map, 1, 1, 0));
    assert_eq!(*map.tile_at(1, 1), Tile::Wall);
    assert!(try_place_warp(&mut map, 0, 0, 0));
    assert_eq!(*map.tile_at(0, 0), Tile::StairUp);
    assert!(!try_place_warp(&mut map, 0, 0, 4));
    assert_eq!(*map.tile_at(0, 0), Tile::StairUp);
    assert!(try_place_warp(&mut map, 2, 2, 2));
    assert_eq!(*map.tile_at(2, 2), Tile::Tunnel);
    assert!(try_place_warp(&mut map, 2, 0, 5));
    assert_eq!(*map.tile_at(2, 0), Tile::StairDown);
    assert_eq!(*map.tile_at(1, 0), Tile::Floor);
}

#[test]
fn warp_placement_stops_after_count_warps() {
    let mut map = GameMap::new(4, 1, &Tile::Floor);
    *map.tile_at_mut(1, 0) = Tile::Wall;
    let draws = vec![(1u16, 0u16, 0u8), (0, 0, 0), (0, 0, 3), (2, 0, 1), (3, 0, 5)];
    assert_eq!(place_warps(&mut map, 2, &draws), 2);
    assert_eq!(*map.tile_at(0, 0), Tile::StairUp);
    assert_eq!(*map.tile_at(1, 0), Tile::Wall);
    assert_eq!(*map.tile_at(2, 0), Tile::Tunnel);
    assert_eq!(*map.tile_at(3, 0), Tile::Floor);
    // the draws run out before three more warps stand
    assert_eq!(place_warps(&mut map, 3, &vec![(3u16, 0u16, 4u8), (2, 0, 0)]), 1);
    assert_eq!(*map.tile_at(3, 0), Tile::StairDown);
    assert_eq!(*map.tile_at(2, 0), Tile::Tunnel);
}
