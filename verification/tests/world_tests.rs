use term_cave_crawl_rpg::util::direction::Direction;
use term_cave_crawl_rpg::util::vec2::Vec2u;
use term_cave_crawl_rpg::world::entity::Action;
use term_cave_crawl_rpg::world::entity::EntityData;
use term_cave_crawl_rpg::world::entity::LivingData;
use term_cave_crawl_rpg::world::game_map::GameMap;
use term_cave_crawl_rpg::world::generation::map_gen;
use term_cave_crawl_rpg::world::tile::Tile;
use term_cave_crawl_rpg::world::world::TargetInfo;
use term_cave_crawl_rpg::world::world::World;
use term_cave_crawl_rpg::world::world::WorldEvent;

#[test]
fn entity_transfer() -> Result<(), String> {
    let mut map = map_gen::generate_map(map_gen::MapType::Test, 0);
    let mut player_id = map.add_entity(EntityData::Player(LivingData::new(100, Direction::Right)), Vec2u::new(3, 3));
    assert_eq!(map.get_entity(player_id).expect("Expected entity").pos, Vec2u::new(3, 3));
    assert_eq!(player_id, 0u32);
    let mut world = World::new();
    let map_id = world.add_map(map);
    assert_eq!(map_id, 0u32);

    let map2 = map_gen::generate_map(map_gen::MapType::Test, 0);
    let map2_id = world.add_map(map2);
    assert_eq!(map2_id, 1u32);

    player_id = world.transfer_entity(map_id, player_id, TargetInfo {
        map_id: map2_id,
        pos: Vec2u::new(6, 7)
    })?;

    assert_eq!(player_id, 0);
    assert_eq!(world.get_map(map2_id).expect("Expected map").get_entity(player_id).expect("Expected entity").pos, Vec2u::new(6, 7));

    player_id = world.transfer_entity(map2_id, player_id, TargetInfo {
        map_id: map_id,
        pos: Vec2u::new(1, 1)
    })?;
    assert_eq!(player_id, 1);
    assert_eq!(
        world.get_map(map_id).expect("Expected map")
            .get_entity(player_id).expect("Expected entity").pos,
        Vec2u::new(1, 1)
    );

    Ok(())
}

fn player() -> EntityData {
    EntityData::Player(LivingData::new(100, Direction::Right))
}

#[test]
fn transfer_reports_each_missing_piece() {
    let mut world = World::new();
    let mut map = GameMap::new(5, 5, &Tile::Floor);
    let id = map.add_entity(player(), Vec2u::new(1, 1));
    let map_id = world.add_map(map);
    let to_nowhere = TargetInfo { map_id: 9, pos: Vec2u::new(0, 0) };
    assert_eq!(world.transfer_entity(7, id, to_nowhere), Err("Source map not found".to_string()));
    assert_eq!(world.transfer_entity(map_id, 5, to_nowhere), Err("Entity not found".to_string()));
    assert_eq!(world.transfer_entity(map_id, id, to_nowhere), Err("Target map not found".to_string()));
    // the entity has left its map even though the target was missing
    assert!(world.get_map(map_id).unwrap().get_entity(id).is_none());
}

#[test]
fn transfer_to_the_same_map_gives_a_new_id() {
    let mut world = World::new();
    let mut map = GameMap::new(5, 5, &Tile::Floor);
    let id = map.add_entity(player(), Vec2u::new(1, 1));
    let map_id = world.add_map(map);
    let new_id = world
        .transfer_entity(map_id, id, TargetInfo { map_id, pos: Vec2u::new(4, 4) })
        .unwrap();
    assert_eq!(new_id, 1);
    let m = world.get_map(map_id).unwrap();
    assert!(m.get_entity(id).is_none());
    assert_eq!(m.get_entity(new_id).unwrap().pos, Vec2u::new(4, 4));
}

#[test]
fn map_ids_count_up() {
    let mut world = World::new();
    assert_eq!(world.get_next_map_id(), 0);
    assert_eq!(world.add_map(GameMap::new(3, 3, &Tile::Floor)), 0);
    assert_eq!(world.add_map(GameMap::new(3, 3, &Tile::Wall)), 1);
    assert_eq!(world.get_next_map_id(), 2);
    assert_eq!(*world.get_map(1).unwrap().tile_at(2, 2), Tile::Wall);
    assert!(world.get_map(2).is_none());
    assert_eq!(world.get_next_level_idx(), 0);
    assert!(world.get_last_level().is_none());
}

#[test]
fn entity_on_map_can_be_changed_in_place() {
    let mut world = World::new();
    let mut map = GameMap::new(5, 5, &Tile::Floor);
    let id = map.add_entity(player(), Vec2u::new(1, 1));
    let map_id = world.add_map(map);
    world.get_entity_on_map_mut(map_id, id).unwrap().pos = Vec2u::new(2, 3);
    assert_eq!(world.get_map(map_id).unwrap().get_entity(id).unwrap().pos, Vec2u::new(2, 3));
    assert!(world.get_entity_on_map_mut(map_id, 8).is_none());
    assert!(world.get_entity_on_map_mut(4, id).is_none());
}

fn set_action(world: &mut World, map_id: u32, id: u32, action: Action) {
    let e = world.get_entity_on_map_mut(map_id, id).unwrap();
    match &mut e.data {
        EntityData::Player(l) => l.action = action,
        EntityData::Skeleton(l) => l.action = action,
    }
}

#[test]
fn update_map_moves_warping_entities() {
    let mut world = World::new();
    let mut a = GameMap::new(6, 6, &Tile::Floor);
    let mut b = GameMap::new(6, 6, &Tile::Floor);
    b.add_entity(player(), Vec2u::new(0, 0));
    a.add_warp(2, 2, TargetInfo { map_id: 1, pos: Vec2u::new(5, 4) });
    let walker = a.add_entity(player(), Vec2u::new(2, 2));
    let a_id = world.add_map(a);
    let b_id = world.add_map(b);
    set_action(&mut world, a_id, walker, Action::UseWarpTile);
    let events = world.update_map(a_id).unwrap();
    assert_eq!(events.len(), 1);
    match events[0] {
        WorldEvent::EntiyMovedToMap { old_entity_id, new_entity_id, target_map_id } => {
            assert_eq!(old_entity_id, walker);
            assert_eq!(new_entity_id, 1);
            assert_eq!(target_map_id, b_id);
        }
    }
    assert!(world.get_map(a_id).unwrap().get_entity(walker).is_none());
    let arrived = world.get_map(b_id).unwrap().get_entity(1).unwrap();
    assert_eq!(arrived.pos, Vec2u::new(5, 4));
    match arrived.data {
        EntityData::Player(l) => assert_eq!(l.action, Action::Idle),
        _ => panic!("the arrival should be the player"),
    }
}

#[test]
fn update_map_errors() {
    let mut world = World::new();
    assert_eq!(world.update_map(3).unwrap_err(), "Map not found".to_string());
    let mut a = GameMap::new(4, 4, &Tile::Floor);
    a.add_warp(1, 1, TargetInfo { map_id: 42, pos: Vec2u::new(0, 0) });
    let e = a.add_entity(player(), Vec2u::new(1, 1));
    let a_id = world.add_map(a);
    set_action(&mut world, a_id, e, Action::UseWarpTile);
    assert_eq!(world.update_map(a_id).unwrap_err(), "Target map not found".to_string());
}

#[test]
fn update_all_moves_the_player_once() {
    let mut world = World::new();
    let mut a = GameMap::new(6, 6, &Tile::Floor);
    let mut b = GameMap::new(6, 6, &Tile::Floor);
    a.add_warp(2, 2, TargetInfo { map_id: 1, pos: Vec2u::new(3, 3) });
    b.add_warp(3, 3, TargetInfo { map_id: 0, pos: Vec2u::new(2, 2) });
    let walker = a.add_entity(player(), Vec2u::new(2, 2));
    let a_id = world.add_map(a);
    world.add_map(b);
    set_action(&mut world, a_id, walker, Action::UseWarpTile);
    let events = world.update_all().unwrap();
    // the entity arrives idle, so it does not warp back in the same round
    assert_eq!(events.len(), 1);
}

#[test]
fn update_all_without_maps() {
    let mut world = World::new();
    assert!(world.update_all().unwrap().is_empty());
}

#[test]
fn room_for_an_update() {
    let mut world = World::new();
    assert!(world.has_room_for_update());
    let mut map = GameMap::new(3, 3, &Tile::Floor);
    assert_eq!(map.entity_count(), 0);
    map.add_entity(player(), Vec2u::new(0, 0));
    map.add_entity(player(), Vec2u::new(1, 0));
    assert_eq!(map.entity_count(), 2);
    assert_eq!(map.get_next_entity_id(), 2);
    world.add_map(map);
    world.add_map(GameMap::new(2, 2, &Tile::Floor));
    assert!(world.has_room_for_update());
}

#[test]
fn maps_exist_exactly_below_the_next_map_id() {
    let mut world = World::new();
    for _ in 0..4 {
        world.add_map(GameMap::new(2, 2, &Tile::Floor));
    }
    let next = world.get_next_map_id();
    assert_eq!(next, 4);
    for id in 0..8u32 {
        assert_eq!(world.get_map(id).is_some(), id < next);
    }
}
