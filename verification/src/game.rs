use vstd::prelude::*;

use crate::app::Event;
use crate::app::Key;
use crate::util::direction::Direction;
use crate::util::vec2::Vec2;
use crate::util::vec2::Vec2u;
use crate::world::entity::Action;
use crate::world::entity::Entity;
use crate::world::entity::EntityData;
use crate::world::entity::LivingData;
use crate::world::game_map::GameMap;
use crate::world::world::World;
use crate::world::world::WorldEvent;
use crate::world::world::all_maps_update_outcome;
use crate::world::world::population;
use crate::world::world::room_for_all_warps;
use crate::world::world::same_terrains;

verus! {

/// The state of a game: the world, the map the player is on, the player's
/// id there, and whether the screen must be cleared before the next frame.
pub struct GameData {
    pub world: World,
    pub current_map_id: u32,
    pub player_id: u32,
    pub should_clear_screen: bool,
}

/// What the player wants to do after a key: move with the arrow keys, use
/// a warp with `>`, else nothing.
pub open spec fn action_for_key(key: Key) -> Action {
    match key {
        Key::Left => Action::Move(Direction::Left),
        Key::Right => Action::Move(Direction::Right),
        Key::Up => Action::Move(Direction::Up),
        Key::Down => Action::Move(Direction::Down),
        Key::Char(c) => if c == '>' {
            Action::UseWarpTile
        } else {
            Action::Idle
        },
        Key::Other => Action::Idle,
    }
}

/// The player's entity after a key: for a player, the action of the key,
/// and the direction of the move if the key moves; other kinds of entity
/// are left alone.
pub open spec fn after_key(e: Entity, key: Key) -> Entity {
    match e.data {
        EntityData::Player(l) => Entity {
            id: e.id,
            pos: e.pos,
            data: EntityData::Player(
                LivingData {
                    health: l.health,
                    direction: match action_for_key(key) {
                        Action::Move(d) => d,
                        _ => l.direction,
                    },
                    action: action_for_key(key),
                },
            ),
        },
        _ => e,
    }
}

/// Each arrow key steers the player its own way: after Right, Left, Up or
/// Down the player wants to move right, left, up or down and faces that way;
/// after `>` it wants to use a warp and keeps its facing; after any other
/// key it does nothing and keeps its facing. Its id, position and health
/// never change, and an entity that is not a player is left alone.
pub proof fn lemma_keys_steer_the_player(e: Entity, c: char)
    ensures
        e.data is Player ==> {
            &&& after_key(e, Key::Right).data == EntityData::Player(
                LivingData {
                    action: Action::Move(Direction::Right),
                    direction: Direction::Right,
                    ..e.data.living()
                },
            )
            &&& after_key(e, Key::Left).data == EntityData::Player(
                LivingData {
                    action: Action::Move(Direction::Left),
                    direction: Direction::Left,
                    ..e.data.living()
                },
            )
            &&& after_key(e, Key::Up).data == EntityData::Player(
                LivingData {
                    action: Action::Move(Direction::Up),
                    direction: Direction::Up,
                    ..e.data.living()
                },
            )
            &&& after_key(e, Key::Down).data == EntityData::Player(
                LivingData {
                    action: Action::Move(Direction::Down),
                    direction: Direction::Down,
                    ..e.data.living()
                },
            )
            &&& after_key(e, Key::Char('>')).data == EntityData::Player(
                LivingData { action: Action::UseWarpTile, ..e.data.living() },
            )
            &&& c != '>' ==> after_key(e, Key::Char(c)).data == EntityData::Player(
                LivingData { action: Action::Idle, ..e.data.living() },
            )
            &&& after_key(e, Key::Other).data == EntityData::Player(
                LivingData { action: Action::Idle, ..e.data.living() },
            )
        },
        !(e.data is Player) ==> after_key(e, Key::Right) == e && after_key(e, Key::Left) == e
            && after_key(e, Key::Up) == e && after_key(e, Key::Down) == e,
        after_key(e, Key::Right).id == e.id && after_key(e, Key::Right).pos == e.pos,
        after_key(e, Key::Left).id == e.id && after_key(e, Key::Left).pos == e.pos,
        after_key(e, Key::Up).id == e.id && after_key(e, Key::Up).pos == e.pos,
        after_key(e, Key::Down).id == e.id && after_key(e, Key::Down).pos == e.pos,
{
}

/// Where the player is after the events: each event that moves the
/// entity with the player's current id makes its new id and map the
/// player's, and asks for the screen to be cleared. The state is the
/// player's id, the map id and whether to clear the screen.
pub open spec fn follow_player(state: (u32, u32, bool), events: Seq<WorldEvent>) -> (u32, u32, bool)
    decreases events.len(),
{
    if events.len() == 0 {
        state
    } else {
        let s = follow_player(state, events.drop_last());
        match events.last() {
            WorldEvent::EntiyMovedToMap { old_entity_id, new_entity_id, target_map_id } => {
                if s.0 == old_entity_id {
                    (new_entity_id, target_map_id, true)
                } else {
                    s
                }
            },
        }
    }
}

impl GameData {
    /// The player's id, the map id and whether to clear the screen.
    pub open spec fn tracking(&self) -> (u32, u32, bool) {
        (self.player_id, self.current_map_id, self.should_clear_screen)
    }

    /// Whether the player's entity is on the current map.
    pub open spec fn player_present(&self) -> bool {
        &&& self.world.maps_view().contains_key(self.current_map_id)
        &&& self.world.maps_view()[self.current_map_id].entities_view().contains_key(self.player_id)
    }

    /// Starts a game on `map`: a player with 100 health, facing right, is
    /// placed in the middle of the map, and the map becomes the first and
    /// current map of a new world.
    pub fn start(map: GameMap) -> (r: GameData)
        requires
            map.wf(),
            map.next_id() < u32::MAX,
        ensures
            r.world.wf(),
            r.current_map_id == 0,
            r.player_id == map.next_id(),
            !r.should_clear_screen,
            r.world.map_counter() == 1,
            r.world.maps_view().dom() == set![0u32],
            r.world.maps_view()[0].same_terrain(&map),
            r.world.maps_view()[0].next_id() == map.next_id() + 1,
            r.world.maps_view()[0].entities_view() == map.entities_view().insert(
                map.next_id(),
                Entity {
                    id: map.next_id(),
                    pos: Vec2 { x: (map.spec_width() / 2) as u16, y: (map.spec_height() / 2) as u16 },
                    data: EntityData::Player(
                        LivingData { health: 100, direction: Direction::Right, action: Action::Idle },
                    ),
                },
            ),
    {
        let mut map = map;
        let spawn_pos = Vec2u::new(map.get_width() / 2, map.get_height() / 2);
        let player_id = map.add_entity(
            EntityData::Player(LivingData::new(100, Direction::Right)),
            spawn_pos,
        );
        let mut world = World::new();
        let map_id = world.add_map(map);
        assert(world.maps_view().dom() =~= set![0u32]);
        GameData { world, current_map_id: map_id, player_id, should_clear_screen: false }
    }

    /// The map the player is on.
    pub fn current_map(&self) -> (r: &GameMap)
        requires
            self.world.maps_view().contains_key(self.current_map_id),
        ensures
            *r == self.world.maps_view()[self.current_map_id],
    {
        self.world.get_map(self.current_map_id).unwrap()
    }

    /// Where the camera looks: at the player, or at the origin when the
    /// player is not on the current map.
    pub fn camera_pos(&self) -> (r: Vec2u)
        requires
            self.world.maps_view().contains_key(self.current_map_id),
        ensures
            r == if self.player_present() {
                self.world.maps_view()[self.current_map_id].entities_view()[self.player_id].pos
            } else {
                Vec2 { x: 0u16, y: 0u16 }
            },
    {
        if let Some(player) = self.current_map().get_entity(self.player_id) {
            player.pos
        } else {
            Vec2u::new(0, 0)
        }
    }

    /// Follows the player through the events of a world update; see
    /// `follow_player`.
    pub fn apply_world_events(&mut self, events: &Vec<WorldEvent>)
        ensures
            final(self).tracking() == follow_player(old(self).tracking(), events@),
            final(self).world == old(self).world,
    {
        let ghost start = self.tracking();
        let mut i: usize = 0;
        while i < events.len()
            invariant
                i <= events@.len(),
                self.tracking() == follow_player(start, events@.take(i as int)),
                self.world == old(self).world,
                start == old(self).tracking(),
            decreases events@.len() - i,
        {
            proof {
                assert(events@.take(i + 1).drop_last() =~= events@.take(i as int));
            }
            match events[i] {
                WorldEvent::EntiyMovedToMap { old_entity_id, new_entity_id, target_map_id } => {
                    if self.player_id == old_entity_id {
                        self.player_id = new_entity_id;
                        self.current_map_id = target_map_id;
                        self.should_clear_screen = true;
                    }
                },
            }
            i += 1;
        }
        proof {
            assert(events@.take(events@.len() as int) =~= events@);
        }
    }

    /// Updates the world once (see `World::update_all`) and follows the player
    /// through the events; on failure the player's place is left as it was.
    pub fn update_world(&mut self) -> (r: Result<(), String>)
        requires
            old(self).world.wf(),
            room_for_all_warps(old(self).world.maps_view()),
        ensures
            final(self).world.wf(),
            same_terrains(old(self).world.maps_view(), final(self).world.maps_view()),
            final(self).world.map_counter() == old(self).world.map_counter(),
            final(self).world.levels_view() == old(self).world.levels_view(),
            exists|
                map_order: Seq<u32>,
                states: Seq<Map<u32, GameMap>>,
                results: Seq<Result<Vec<WorldEvent>, String>>,
                world_r: Result<Vec<WorldEvent>, String>,
            |
                #[trigger] all_maps_update_outcome(
                    old(self).world.maps_view(),
                    final(self).world.maps_view(),
                    map_order,
                    states,
                    results,
                    world_r,
                ) && match world_r {
                    Ok(events) => r is Ok && final(self).tracking() == follow_player(
                        old(self).tracking(),
                        events@,
                    ),
                    Err(msg) => r matches Err(m) && m@ == msg@ && final(self).tracking() == old(
                        self,
                    ).tracking(),
                },
    {
        let result = self.world.update_all();
        let ghost world_r = result;
        match result {
            Ok(events) => {
                self.apply_world_events(&events);
                Ok(())
            },
            Err(msg) => Err(msg),
        }
    }

    /// Handles a key: when it is pressed, the player's action and, for a
    /// move, its facing follow the key (see `after_key`).
    pub fn handle_key(&mut self, pressed: bool, key: Key) -> (r: Result<(), String>)
        requires
            old(self).world.wf(),
            pressed ==> old(self).player_present(),
        ensures
            r is Ok,
            !pressed ==> *final(self) == *old(self),
            final(self).tracking() == old(self).tracking(),
            final(self).world.wf(),
            same_terrains(old(self).world.maps_view(), final(self).world.maps_view()),
            final(self).world.map_counter() == old(self).world.map_counter(),
            final(self).world.levels_view() == old(self).world.levels_view(),
            pressed ==> population(final(self).world.maps_view()) == population(
                old(self).world.maps_view(),
            ).insert(
                old(self).current_map_id,
                (
                    old(self).world.maps_view()[old(self).current_map_id].entities_view().insert(
                        old(self).player_id,
                        after_key(
                            old(self).world.maps_view()[old(
                                self,
                            ).current_map_id].entities_view()[old(self).player_id],
                            key,
                        ),
                    ),
                    old(self).world.maps_view()[old(self).current_map_id].next_id(),
                ),
            ),
    {
        if !pressed {
            return Ok(());
        }
        let map_id = self.current_map_id;
        let player_id = self.player_id;
        let entity = self.world.get_entity_on_map_mut(map_id, player_id).unwrap();
        if let EntityData::Player(living) = &mut entity.data {
            let player_action: Action = match key {
                Key::Left => Action::Move(Direction::Left),
                Key::Right => Action::Move(Direction::Right),
                Key::Up => Action::Move(Direction::Up),
                Key::Down => Action::Move(Direction::Down),
                Key::Char('>') => Action::UseWarpTile,
                _ => Action::Idle,
            };
            living.action = player_action;
            if let Action::Move(direction) = player_action {
                living.direction = direction;
            }
        }
        Ok(())
    }

    /// Handles an input event: keys go to `handle_key`, a resize asks for the
    /// screen to be cleared, anything else is ignored.
    pub fn handle_event(&mut self, event: Event) -> (r: Result<(), String>)
        requires
            old(self).world.wf(),
            event matches Event::Key { pressed, .. } && pressed ==> old(self).player_present(),
        ensures
            r is Ok,
            final(self).world.wf(),
            event is Resize ==> final(self).world == old(self).world && final(self).should_clear_screen
                && final(self).player_id == old(self).player_id && final(self).current_map_id == old(
                self,
            ).current_map_id,
            event is Other ==> *final(self) == *old(self),
            event matches Event::Key { pressed, control_only, key } ==> {
                &&& final(self).tracking() == old(self).tracking()
                &&& same_terrains(old(self).world.maps_view(), final(self).world.maps_view())
                &&& !pressed ==> *final(self) == *old(self)
                &&& pressed ==> population(final(self).world.maps_view()) == population(
                    old(self).world.maps_view(),
                ).insert(
                    old(self).current_map_id,
                    (
                        old(self).world.maps_view()[old(
                            self,
                        ).current_map_id].entities_view().insert(
                            old(self).player_id,
                            after_key(
                                old(self).world.maps_view()[old(
                                    self,
                                ).current_map_id].entities_view()[old(self).player_id],
                                key,
                            ),
                        ),
                        old(self).world.maps_view()[old(self).current_map_id].next_id(),
                    ),
                )
            },
    {
        match event {
            Event::Key { pressed, control_only, key } => self.handle_key(pressed, key),
            Event::Resize => {
                self.should_clear_screen = true;
                Ok(())
            },
            _ => Ok(()),
        }
    }
}

} // verus!
