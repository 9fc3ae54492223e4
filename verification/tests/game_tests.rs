use term_cave_crawl_rpg::app::Event;
use term_cave_crawl_rpg::app::Key;
use term_cave_crawl_rpg::game::GameData;
use term_cave_crawl_rpg::util::direction::Direction;
use term_cave_crawl_rpg::util::vec2::Vec2u;
use term_cave_crawl_rpg::world::entity::Action;
use term_cave_crawl_rpg::world::entity::EntityData;
use term_cave_crawl_rpg::world::game_map::GameMap;
use term_cave_crawl_rpg::world::tile::Tile;
use term_cave_crawl_rpg::world::world::TargetInfo;
use term_cave_crawl_rpg::world::world::WorldEvent;

fn player_state(game: &GameData) -> (Vec2u, Direction, Action) {
    let e = game.current_map().get_entity(game.player_id).unwrap();
    match e.data {
        EntityData::Player(l) => (e.pos, l.direction, l.action),
        EntityData::Skeleton(_) => panic!("the player should be a player"),
    }
}

#[test]
fn a_new_game_puts_the_player_in_the_middle() {
    let game = GameData::start(GameMap::new(9, 6, &Tile::Floor));
    assert_eq!(game.current_map_id, 0);
    assert_eq!(game.player_id, 0);
    assert!(!game.should_clear_screen);
    assert_eq!(game.camera_pos(), Vec2u::new(4, 3));
    assert_eq!(player_state(&game), (Vec2u::new(4, 3), Direction::Right, Action::Idle));
    match game.current_map().get_entity(0).unwrap().data {
        EntityData::Player(l) => assert_eq!(l.health, 100),
        _ => panic!("the player should be a player"),
    }
}

#[test]
fn keys_steer_the_player() {
    let mut game = GameData::start(GameMap::new(9, 6, &Tile::Floor));
    game.handle_key(true, Key::Up).unwrap();
    assert_eq!(player_state(&game), (Vec2u::new(4, 3), Direction::Up, Action::Move(Direction::Up)));
    game.handle_key(true, Key::Char('>')).unwrap();
    assert_eq!(player_state(&game), (Vec2u::new(4, 3), Direction::Up, Action::UseWarpTile));
    game.handle_key(true, Key::Char('x')).unwrap();
    assert_eq!(player_state(&game).2, Action::Idle);
    game.handle_key(true, Key::Left).unwrap();
    // a released key changes nothing
    game.handle_key(false, Key::Right).unwrap();
    assert_eq!(player_state(&game), (Vec2u::new(4, 3), Direction::Left, Action::Move(Direction::Left)));
    game.update_world().unwrap();
    assert_eq!(player_state(&game), (Vec2u::new(3, 3), Direction::Left, Action::Idle));
    assert_eq!(game.camera_pos(), Vec2u::new(3, 3));
}

#[test]
fn events_are_handled() {
    let mut game = GameData::start(GameMap::new(9, 6, &Tile::Floor));
    game.handle_event(Event::Resize).unwrap();
    assert!(game.should_clear_screen);
    game.handle_event(Event::Key { pressed: true, control_only: false, key: Key::Down }).unwrap();
    assert_eq!(player_state(&game).2, Action::Move(Direction::Down));
    game.handle_event(Event::Other).unwrap();
    assert_eq!(player_state(&game).2, Action::Move(Direction::Down));
}

#[test]
fn the_player_follows_its_warp() {
    let mut first = GameMap::new(9, 6, &Tile::Floor);
    first.add_warp(4, 3, TargetInfo { map_id: 1, pos: Vec2u::new(1, 1) });
    let mut game = GameData::start(first);
    let second = GameMap::new(5, 5, &Tile::Floor);
    assert_eq!(game.world.add_map(second), 1);
    game.handle_key(true, Key::Char('>')).unwrap();
    game.update_world().unwrap();
    assert_eq!(game.current_map_id, 1);
    assert_eq!(game.player_id, 0);
    assert!(game.should_clear_screen);
    assert_eq!(player_state(&game), (Vec2u::new(1, 1), Direction::Right, Action::Idle));
    assert!(game.world.get_map(0).unwrap().get_entity(0).is_none());
}

#[test]
fn other_entities_moving_leave_the_player_alone() {
    let mut game = GameData::start(GameMap::new(9, 6, &Tile::Floor));
    game.apply_world_events(&vec![WorldEvent::EntiyMovedToMap {
        old_entity_id: 5,
        new_entity_id: 0,
        target_map_id: 3,
    }]);
    assert_eq!((game.player_id, game.current_map_id, game.should_clear_screen), (0, 0, false));
    game.apply_world_events(&vec![
        WorldEvent::EntiyMovedToMap { old_entity_id: 0, new_entity_id: 4, target_map_id: 2 },
        WorldEvent::EntiyMovedToMap { old_entity_id: 4, new_entity_id: 9, target_map_id: 6 },
    ]);
    assert_eq!((game.player_id, game.current_map_id, game.should_clear_screen), (9, 6, true));
}

#[test]
fn a_failed_update_keeps_the_player_where_it_was() {
    let mut first = GameMap::new(9, 6, &Tile::Floor);
    first.add_warp(4, 3, TargetInfo { map_id: 7, pos: Vec2u::new(1, 1) });
    let mut game = GameData::start(first);
    game.handle_key(true, Key::Char('>')).unwrap();
    assert_eq!(game.update_world(), Err("Target map not found".to_string()));
    assert_eq!((game.player_id, game.current_map_id), (0, 0));
}
