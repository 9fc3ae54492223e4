use std::collections::HashMap;

use term_cave_crawl_rpg::render::cell_glyph;
use term_cave_crawl_rpg::util::direction::Direction;
use term_cave_crawl_rpg::util::vec2::Vec2u;
use term_cave_crawl_rpg::world::entity::Action;
use term_cave_crawl_rpg::world::entity::Entity;
use term_cave_crawl_rpg::world::entity::EntityData;
use term_cave_crawl_rpg::world::entity::LivingData;
use term_cave_crawl_rpg::world::game_map::GameMap;
use term_cave_crawl_rpg::world::game_map::pos_key;
use term_cave_crawl_rpg::world::tile::Tile;
use term_cave_crawl_rpg::world::world::TargetInfo;
use term_cave_crawl_rpg::world::world::WorldAction;

fn living(action: Action) -> LivingData {
    LivingData { health: 10, direction: Direction::Up, action }
}

#[test]
fn new_map_is_uniform() {
    let map = GameMap::new(4, 3, &Tile::Grass);
    assert_eq!(map.get_width(), 4);
    assert_eq!(map.get_height(), 3);
    assert_eq!(map.get_size(), (4, 3));
    for x in 0..4 {
        for y in 0..3 {
            assert_eq!(*map.tile_at(x, y), Tile::Grass);
            assert!(map.is_passable(x, y));
        }
    }
    assert!(map.warp_at(0, 0).is_none());
    assert!(map.get_entity(0).is_none());
}

#[test]
fn tiles_are_stored_row_by_row() {
    let mut map = GameMap::new(4, 3, &Tile::Floor);
    *map.tile_at_mut(3, 1) = Tile::Wall;
    assert_eq!(*map.tile_at(3, 1), Tile::Wall);
    assert!(!map.is_passable(3, 1));
    // index 1 * 4 + 3 == 7 is also reached as x = 7, y = 0
    assert_eq!(*map.tile_at(7, 0), Tile::Wall);
    assert_eq!(*map.tile_at(2, 1), Tile::Floor);
}

#[test]
fn fill_sets_every_cell() {
    let mut map = GameMap::new(5, 4, &Tile::Floor);
    map.fill(|x, y| if (x + y) % 2 == 0 { Tile::Water } else { Tile::Door(x > 2) });
    assert_eq!(*map.tile_at(0, 0), Tile::Water);
    assert_eq!(*map.tile_at(1, 0), Tile::Door(false));
    assert_eq!(*map.tile_at(4, 3), Tile::Door(true));
    assert!(map.is_passable(4, 3));
    assert!(!map.is_passable(1, 0));
}

#[test]
fn warps_are_found_by_position() {
    let mut map = GameMap::new(5, 5, &Tile::Floor);
    let t = TargetInfo { map_id: 3, pos: Vec2u::new(1, 2) };
    map.add_warp(2, 3, t);
    assert_eq!(map.warp_at(2, 3).unwrap().map_id, 3);
    assert_eq!(map.warp_at(2, 3).unwrap().pos, Vec2u::new(1, 2));
    assert!(map.warp_at(3, 2).is_none());
    map.add_free_warp(4, 4);
    assert!(map.warp_at(4, 4).is_none());
    map.link_free_warp_to_next(4, 4, TargetInfo { map_id: 8, pos: Vec2u::new(0, 0) });
    assert_eq!(map.warp_at(4, 4).unwrap().map_id, 8);
}

#[test]
fn position_keys_are_distinct() {
    assert_eq!(pos_key(0, 0), 0);
    assert_eq!(pos_key(1, 2), 65538);
    assert_ne!(pos_key(1, 2), pos_key(2, 1));
    assert_eq!(pos_key(65535, 65535), u32::MAX);
}

#[test]
fn entities_get_fresh_ids() {
    let mut map = GameMap::new(5, 5, &Tile::Floor);
    let a = map.add_entity(EntityData::Skeleton(living(Action::Idle)), Vec2u::new(1, 1));
    let b = map.add_entity(EntityData::Player(living(Action::Idle)), Vec2u::new(2, 1));
    assert_eq!((a, b), (0, 1));
    assert_eq!(map.remove_entity(a).is_some(), true);
    assert!(map.remove_entity(a).is_none());
    let c = map.add_entity(EntityData::Skeleton(living(Action::Idle)), Vec2u::new(1, 1));
    assert_eq!(c, 2);
    map.get_entity_mut(b).unwrap().pos = Vec2u::new(4, 4);
    assert_eq!(map.get_entity(b).unwrap().pos, Vec2u::new(4, 4));
    assert!(map.get_entity_mut(a).is_none());
}

#[test]
fn entities_by_pos_covers_every_cell_with_an_entity() {
    let mut map = GameMap::new(5, 5, &Tile::Floor);
    map.add_entity(EntityData::Skeleton(living(Action::Idle)), Vec2u::new(1, 1));
    map.add_entity(EntityData::Skeleton(living(Action::Idle)), Vec2u::new(1, 1));
    let p = map.add_entity(EntityData::Player(living(Action::Idle)), Vec2u::new(3, 0));
    let by_pos: HashMap<u32, &Entity> = map.entities_by_pos();
    assert_eq!(by_pos.len(), 2);
    assert_eq!(by_pos.get(&pos_key(3, 0)).unwrap().pos, Vec2u::new(3, 0));
    assert_eq!(by_pos.get(&pos_key(3, 0)).unwrap().id, p);
    assert_eq!(by_pos.get(&pos_key(1, 1)).unwrap().pos, Vec2u::new(1, 1));
}

#[test]
fn update_moves_only_onto_passable_cells_inside_the_map() {
    let mut map = GameMap::new(4, 4, &Tile::Floor);
    *map.tile_at_mut(2, 1) = Tile::Tree;
    let free = map.add_entity(EntityData::Player(living(Action::Move(Direction::Down))), Vec2u::new(1, 1));
    let blocked = map.add_entity(EntityData::Skeleton(living(Action::Move(Direction::Right))), Vec2u::new(1, 2));
    let edge = map.add_entity(EntityData::Skeleton(living(Action::Move(Direction::Left))), Vec2u::new(0, 3));
    let tree = map.add_entity(EntityData::Skeleton(living(Action::Move(Direction::Up))), Vec2u::new(2, 2));
    let acts = map.update().unwrap();
    assert!(acts.is_empty());
    assert_eq!(map.get_entity(free).unwrap().pos, Vec2u::new(1, 2));
    assert_eq!(map.get_entity(blocked).unwrap().pos, Vec2u::new(2, 2));
    assert_eq!(map.get_entity(edge).unwrap().pos, Vec2u::new(0, 3));
    assert_eq!(map.get_entity(tree).unwrap().pos, Vec2u::new(2, 2));
    for id in [free, blocked, edge, tree] {
        match map.get_entity(id).unwrap().data {
            EntityData::Player(l) | EntityData::Skeleton(l) => {
                assert_eq!(l.action, Action::Idle);
                assert_eq!(l.health, 10);
                assert_eq!(l.direction, Direction::Up);
            }
        }
    }
}

#[test]
fn update_reports_entities_on_warps() {
    let mut map = GameMap::new(4, 4, &Tile::Floor);
    map.add_warp(1, 1, TargetInfo { map_id: 2, pos: Vec2u::new(0, 0) });
    let on_warp = map.add_entity(EntityData::Player(living(Action::UseWarpTile)), Vec2u::new(1, 1));
    map.add_entity(EntityData::Player(living(Action::UseWarpTile)), Vec2u::new(2, 1));
    map.add_entity(EntityData::Player(living(Action::Idle)), Vec2u::new(1, 1));
    let acts = map.update().unwrap();
    assert_eq!(acts.len(), 1);
    match acts[0] {
        WorldAction::EntityUseWarp { entity_id } => assert_eq!(entity_id, on_warp),
    }
    // after the update everyone is idle: a second update asks for nothing
    assert!(map.update().unwrap().is_empty());
}

#[test]
fn cells_show_the_entity_standing_there_else_the_tile() {
    let mut map = GameMap::new(3, 2, &Tile::Floor);
    *map.tile_at_mut(2, 1) = Tile::Wall;
    map.add_entity(EntityData::Player(LivingData::new(5, Direction::Left)), Vec2u::new(0, 0));
    map.add_entity(EntityData::Skeleton(living(Action::Idle)), Vec2u::new(1, 1));
    let by_pos = map.entities_by_pos();
    assert_eq!(cell_glyph(&by_pos, &map, 0, 0).text, "\u{2190}&");
    assert_eq!(cell_glyph(&by_pos, &map, 1, 1).text, " k");
    assert_eq!(cell_glyph(&by_pos, &map, 2, 1), Tile::Wall.repr());
    assert_eq!(cell_glyph(&by_pos, &map, 1, 0), Tile::Floor.repr());
}

#[test]
fn step_off_the_last_column_is_blocked() {
    let mut map = GameMap::new(3, 2, &Tile::Floor);
    let id = map.add_entity(EntityData::Player(living(Action::Move(Direction::Right))), Vec2u::new(2, 0));
    assert!(map.update().unwrap().is_empty());
    assert_eq!(map.get_entity(id).unwrap().pos, Vec2u::new(2, 0));
    assert_eq!(map.get_size(), (3, 2));
}
