use term_cave_crawl_rpg::app::App;
use term_cave_crawl_rpg::app::Event;
use term_cave_crawl_rpg::app::Key;
use term_cave_crawl_rpg::app::frame_delay_nanos;
use term_cave_crawl_rpg::app::frame_rest_nanos;
use term_cave_crawl_rpg::app::quit_requested;
use term_cave_crawl_rpg::render::Color;
use term_cave_crawl_rpg::render::info_column;
use term_cave_crawl_rpg::render::view_window;
use term_cave_crawl_rpg::util::direction::Direction;
use term_cave_crawl_rpg::util::vec2::Vec2;
use term_cave_crawl_rpg::util::vec2::Vec2i;
use term_cave_crawl_rpg::util::vec2::Vec2u;
use term_cave_crawl_rpg::world::entity::Action;
use term_cave_crawl_rpg::world::entity::Entity;
use term_cave_crawl_rpg::world::entity::EntityBehavior;
use term_cave_crawl_rpg::world::entity::EntityData;
use term_cave_crawl_rpg::world::entity::LivingData;
use term_cave_crawl_rpg::world::game_map::GameMap;
use term_cave_crawl_rpg::world::generation::world_gen::assign_clusters;
use term_cave_crawl_rpg::world::generation::world_gen::cluster_connections;
use term_cave_crawl_rpg::world::generation::world_gen::draw_extra_links;
use term_cave_crawl_rpg::world::generation::world_gen::level_connections;
use term_cave_crawl_rpg::world::generation::world_gen::get_maps_per_level;
use term_cave_crawl_rpg::world::generation::world_gen::sort_pair;
use term_cave_crawl_rpg::world::tile::Tile;

#[test]
fn vector_arithmetic() {
    let a = Vec2i::new(3, -4);
    let b = Vec2i::new(-1, 2);
    assert_eq!(a + b, Vec2i::new(2, -2));
    assert_eq!(a - b, Vec2i::new(4, -6));
    assert_eq!(a * 3, Vec2i::new(9, -12));
    let u = Vec2u::new(5, 7);
    assert_eq!(u + Vec2u::new(1, 1), Vec2u::new(6, 8));
    assert_eq!(u - Vec2u::new(5, 0), Vec2u::new(0, 7));
    assert_eq!(u * 2, Vec2u::new(10, 14));
    assert_eq!(u + b, Vec2i::new(4, 9));
    assert_eq!(b + u, Vec2i::new(4, 9));
    assert_eq!(u - b, Vec2i::new(6, 5));
    assert_eq!(b - u, Vec2i::new(-6, -5));
}

#[test]
fn vector_conversions() {
    let u = Vec2u::new(65535, 0);
    let i: Vec2i = Vec2i::from(u);
    assert_eq!(i, Vec2i::new(65535, 0));
    assert_eq!(Vec2u::try_from(i), Ok(u));
    assert_eq!(Vec2u::try_from(Vec2i::new(-1, 3)), Err("negative component cannot be converted to u16"));
    assert_eq!(Vec2u::try_from(Vec2i::new(1, 65536)), Err("component overflow when converting to u16"));
    assert_eq!(Vec2u::try_from(Vec2i::new(70000, -2)), Err("negative component cannot be converted to u16"));
}

#[test]
fn vector_text() {
    assert_eq!(Vec2i::new(-12, 305).to_string(), "Vec2(-12, 305)");
    assert_eq!(Vec2u::new(0, 65535).to_string(), "Vec2(0, 65535)");
    assert_eq!(Vec2i::new(i32::MIN, i32::MAX).to_string(), "Vec2(-2147483648, 2147483647)");
}

#[test]
fn unit_steps() {
    assert_eq!(Vec2i::left(), Vec2 { x: -1, y: 0 });
    assert_eq!(Vec2i::right(), Vec2 { x: 1, y: 0 });
    assert_eq!(Vec2i::up(), Vec2 { x: 0, y: -1 });
    assert_eq!(Vec2i::down(), Vec2 { x: 0, y: 1 });
    assert_eq!(Direction::Left.to_vec2(), Vec2i::left());
    assert_eq!(Direction::Right.to_vec2(), Vec2i::right());
    assert_eq!(Direction::Up.to_vec2(), Vec2i::up());
    assert_eq!(Direction::Down.to_vec2(), Vec2i::down());
    assert_eq!(Direction::default(), Direction::Right);
}

#[test]
fn tiles() {
    assert!(Tile::Floor.is_passable());
    assert!(!Tile::Wall.is_passable());
    assert!(!Tile::Lava.is_passable());
    assert!(Tile::Door(true).is_passable());
    assert!(!Tile::Door(false).is_passable());
    assert!(Tile::StairUp.is_passable());
    assert_eq!(Tile::Tunnel.get_level_delta(), Some(0));
    assert_eq!(Tile::StairDown.get_level_delta(), Some(1));
    assert_eq!(Tile::StairUp.get_level_delta(), Some(-1));
    assert_eq!(Tile::Grass.get_level_delta(), None);
    assert_eq!(Tile::warp_from_direction(-1), Tile::StairUp);
    assert_eq!(Tile::warp_from_direction(1), Tile::StairDown);
    assert_eq!(Tile::warp_from_direction(0), Tile::Tunnel);
    assert_eq!(Tile::warp_from_direction(7), Tile::Tunnel);
    for d in -1..=1 {
        assert_eq!(Tile::warp_from_direction(d).get_level_delta(), Some(d));
    }
}

#[test]
fn glyphs() {
    let g = Tile::Lava.repr();
    assert_eq!(g.text, "/~");
    assert_eq!(g.fg, Some(Color::Ansi(11)));
    assert_eq!(g.bg, Some(Color::Ansi(202)));
    assert!(!g.bold);
    assert_eq!(Tile::Door(true).repr().text, "|+");
    assert_eq!(Tile::Door(false).repr().text, "||");
    assert_eq!(Tile::Vent.repr().text, "=\u{305}=\u{305}");
    let p = Entity::new(0, Vec2u::new(0, 0), EntityData::Player(LivingData::new(1, Direction::Up)));
    assert_eq!(p.repr().text, "\u{2191}&");
    assert_eq!(p.repr().fg, Some(Color::Magenta));
    assert!(p.repr().bold);
    let k = Entity::new(1, Vec2u::new(0, 0), EntityData::Skeleton(LivingData::new(1, Direction::Up)));
    assert_eq!(k.repr().text, " k");
}

#[test]
fn living_creatures() {
    let mut l = LivingData::new(30, Direction::Left);
    assert_eq!(l.action, Action::Idle);
    assert_eq!(l.damage(12), 18);
    assert_eq!(l.damage(100), 0);
    assert_eq!(l.health, 0);
    l.action = Action::Attack(Direction::Up);
    let map = GameMap::new(1, 1, &Tile::Floor);
    assert_eq!(l.think(&Vec2u::new(0, 0), &map), Action::Attack(Direction::Up));
    l.update(Action::Attack(Direction::Up));
    assert_eq!(l.action, Action::Idle);
    let mut d = EntityData::Skeleton(LivingData { health: 3, direction: Direction::Down, action: Action::UseWarpTile });
    assert_eq!(d.think(&Vec2u::new(0, 0), &map), Action::UseWarpTile);
    d.update(Action::UseWarpTile);
    assert_eq!(d, EntityData::Skeleton(LivingData { health: 3, direction: Direction::Down, action: Action::Idle }));
}

#[test]
fn camera_window() {
    // 80 columns, 25 rows, all usable: 39 cells by 24 rows, centred on the camera
    assert_eq!(view_window(Vec2u::new(50, 50), 100, 100, 80, 25, 80), (31, 38, 70, 62));
    // near the origin the window starts at 0
    assert_eq!(view_window(Vec2u::new(2, 3), 100, 100, 80, 25, 80), (0, 0, 39, 24));
    // near the far corner the window ends at the map's edge
    assert_eq!(view_window(Vec2u::new(99, 99), 100, 100, 80, 25, 80), (61, 76, 100, 100));
    // a map smaller than the window is drawn whole
    assert_eq!(view_window(Vec2u::new(3, 3), 10, 8, 80, 25, 60), (0, 0, 10, 8));
    assert_eq!(info_column(80), 60);
    assert_eq!(info_column(7), 5);
}

#[test]
fn quitting() {
    let ctrl_c = Event::Key { pressed: true, control_only: true, key: Key::Char('c') };
    assert!(quit_requested(ctrl_c));
    assert!(quit_requested(Event::Key { pressed: true, control_only: true, key: Key::Char('q') }));
    assert!(!quit_requested(Event::Key { pressed: false, control_only: true, key: Key::Char('q') }));
    assert!(!quit_requested(Event::Key { pressed: true, control_only: false, key: Key::Char('q') }));
    assert!(!quit_requested(Event::Resize));
    let mut app = App::new(5u8);
    assert!(!app.should_exit());
    assert!(!app.note_event(Event::Other));
    assert!(!app.should_exit());
    assert!(app.note_event(ctrl_c));
    assert!(app.should_exit());
    assert_eq!(app.data, 5);
    let mut other = App::new(());
    other.exit();
    assert!(other.should_exit());
}

#[test]
fn frame_timing() {
    assert_eq!(frame_delay_nanos(32), 31_250_000);
    assert_eq!(frame_rest_nanos(1_000, 31_250_000), Some(31_249_000));
    assert_eq!(frame_rest_nanos(31_250_000, 31_250_000), None);
    assert_eq!(frame_rest_nanos(40_000_000, 31_250_000), None);
}

#[test]
fn level_helpers() {
    assert_eq!(sort_pair((5, 2)), (2, 5));
    assert_eq!(sort_pair((2, 5)), (2, 5));
    assert_eq!(sort_pair((4, 4)), (4, 4));
    assert_eq!(get_maps_per_level(0, 9), 3);
    assert_eq!(get_maps_per_level(7, 1), 10);
}

#[test]
fn vector_compound_assignment() {
    let mut a = Vec2i::new(1, 2);
    a += Vec2i::new(10, -20);
    assert_eq!(a, Vec2i::new(11, -18));
    a -= Vec2i::new(1, 1);
    assert_eq!(a, Vec2i::new(10, -19));
    let mut u = Vec2u::new(3, 4);
    u += Vec2u::new(1, 1);
    u -= Vec2u::new(4, 0);
    assert_eq!(u, Vec2u::new(0, 5));
}

#[test]
fn clusters_are_chained_and_extra_links_added_once() {
    let clusters = vec![vec![0u32, 1, 2], vec![3], vec![5, 4], vec![]];
    let extra = vec![(2u32, 0u32), (1, 1), (0, 2), (4, 5)];
    let mut links = cluster_connections(&clusters, &extra);
    links.sort();
    assert_eq!(links, vec![(0, 1), (0, 2), (1, 2), (4, 5)]);
    assert!(cluster_connections(&vec![vec![7u32]], &vec![]).is_empty());
}

#[test]
fn clusters_hold_each_map_once_in_order() {
    for _ in 0..20 {
        let clusters = assign_clusters(7, 3, 10);
        assert_eq!(clusters.len(), 3);
        let mut all: Vec<u32> = Vec::new();
        for c in &clusters {
            assert!(c.windows(2).all(|w| w[0] < w[1]));
            all.extend(c.iter().copied());
        }
        all.sort();
        assert_eq!(all, (10..17).collect::<Vec<u32>>());
    }
    assert_eq!(assign_clusters(4, 1, 0), vec![vec![0u32, 1, 2, 3]]);
    assert_eq!(assign_clusters(0, 2, 5), vec![Vec::<u32>::new(), Vec::new()]);
}

#[test]
fn extra_links_stay_inside_the_cluster() {
    let cluster = vec![3u32, 8, 9, 12, 20];
    for _ in 0..20 {
        let links = draw_extra_links(&cluster);
        assert!(links.len() < 2);
        for (u, v) in links {
            assert!(cluster.contains(&u) && cluster.contains(&v));
        }
    }
    assert!(draw_extra_links(&vec![1u32, 2, 3]).is_empty());
}

#[test]
fn level_links_join_different_maps_of_the_level() {
    for _ in 0..20 {
        let links = level_connections(2, 3, 40);
        for (i, &(a, b)) in links.iter().enumerate() {
            assert!(40 <= a && a < b && b < 45);
            assert!(!links[..i].contains(&(a, b)));
        }
    }
    // one entrance: a single cluster, chained in order
    let mut links = level_connections(0, 1, 0);
    links.sort();
    assert_eq!(links, vec![(0, 1), (1, 2)]);
    // one entrance, more maps: the whole chain is there
    for _ in 0..10 {
        let links = level_connections(5, 1, 100);
        assert!(links.len() >= 7);
        for k in 100..107u32 {
            assert!(links.contains(&(k, k + 1)));
        }
    }
}
