use vstd::prelude::*;

use crate::render::Color;
use crate::render::Glyph;
use crate::render::glyph;
use crate::util::direction::Direction;
use crate::util::vec2::Vec2u;
use crate::world::game_map::GameMap;

verus! {

/// A creature on a map: its id on that map, where it stands, and what it is.
pub struct Entity {
    pub id: u32,
    pub pos: Vec2u,
    pub data: EntityData,
}

/// What an entity intends to do on the next update.
#[derive(Debug, Default, Clone, Copy, PartialEq, Eq, Structural)]
pub enum Action {
    #[default]
    Idle,
    Move(Direction),
    UseWarpTile,
    Attack(Direction),
    Interact(Direction),
}

/// The state that every living entity has.
#[derive(Debug, Clone, Copy, PartialEq, Eq)]
pub struct LivingData {
    pub health: u32,
    pub direction: Direction,
    pub action: Action,
}

impl LivingData {
    /// A living creature with the given health and facing, that does nothing yet.
    pub fn new(health: u32, direction: Direction) -> (r: LivingData)
        ensures
            r.health == health,
            r.direction == direction,
            r.action == Action::Idle,
    {
        LivingData { health, direction, action: Action::Idle }
    }
}

/// The kinds of entity, each with its living state.
#[derive(Debug, Clone, Copy, PartialEq, Eq)]
pub enum EntityData {
    Player(LivingData),
    Skeleton(LivingData),
}

impl Entity {
    /// An entity with the given id, position and kind.
    pub fn new(id: u32, pos: Vec2u, data: EntityData) -> (r: Entity)
        ensures
            r.id == id,
            r.pos == pos,
            r.data == data,
    {
        return Entity { id, pos, data };
    }

    /// How the entity is drawn.
    pub open spec fn glyph_of(&self) -> Glyph {
        match self.data {
            EntityData::Player(data) => glyph(
                match data.direction {
                    Direction::Up => "\u{2191}&",
                    Direction::Down => "\u{2193}&",
                    Direction::Left => "\u{2190}&",
                    Direction::Right => "\u{2192}&",
                },
                Some(Color::Magenta),
                None,
                true,
            ),
            EntityData::Skeleton(_) => glyph(" k", None, None, true),
        }
    }

    /// A player is drawn as an arrow that points the way it faces: right
    /// (U+2192), left (U+2190), up (U+2191) or down (U+2193), the four
    /// arrows all different, followed by `&`, in bold magenta; a skeleton is
    /// a bold `k`.
    pub proof fn lemma_player_arrow_points_its_way(&self)
        ensures
            self.data is Player && self.data.living().direction == Direction::Right
                ==> self.glyph_of().text == "\u{2192}&",
            self.data is Player && self.data.living().direction == Direction::Left
                ==> self.glyph_of().text == "\u{2190}&",
            self.data is Player && self.data.living().direction == Direction::Up
                ==> self.glyph_of().text == "\u{2191}&",
            self.data is Player && self.data.living().direction == Direction::Down
                ==> self.glyph_of().text == "\u{2193}&",
            self.data is Player ==> self.glyph_of().fg == Some(Color::Magenta) && self.glyph_of().bg
                is None && self.glyph_of().bold,
            self.data is Skeleton ==> self.glyph_of().text == " k" && self.glyph_of().bold,
            "\u{2192}&"@ != "\u{2190}&"@ && "\u{2192}&"@ != "\u{2191}&"@ && "\u{2192}&"@
                != "\u{2193}&"@ && "\u{2190}&"@ != "\u{2191}&"@ && "\u{2190}&"@ != "\u{2193}&"@
                && "\u{2191}&"@ != "\u{2193}&"@,
    {
        reveal_strlit("\u{2192}&");
        reveal_strlit("\u{2190}&");
        reveal_strlit("\u{2191}&");
        reveal_strlit("\u{2193}&");
        assert("\u{2192}&"@[0] != "\u{2190}&"@[0]);
        assert("\u{2192}&"@[0] != "\u{2191}&"@[0]);
        assert("\u{2192}&"@[0] != "\u{2193}&"@[0]);
        assert("\u{2190}&"@[0] != "\u{2191}&"@[0]);
        assert("\u{2190}&"@[0] != "\u{2193}&"@[0]);
        assert("\u{2191}&"@[0] != "\u{2193}&"@[0]);
    }

    /// How the entity is drawn on the terminal: the player as an arrow in the
    /// direction it faces, in bold magenta; a skeleton as a bold `k`.
    pub fn repr(&self) -> (r: Glyph)
        ensures
            r == self.glyph_of(),
    {
        match &self.data {
            EntityData::Player(data) => {
                let text = match &data.direction {
                    Direction::Up => "\u{2191}&",
                    Direction::Down => "\u{2193}&",
                    Direction::Left => "\u{2190}&",
                    Direction::Right => "\u{2192}&",
                };
                Glyph { text, fg: Some(Color::Magenta), bg: None, bold: true }
            },
            EntityData::Skeleton(_) => Glyph { text: " k", fg: None, bg: None, bold: true },
        }
    }
}

/// The behaviour of an entity: it decides on an action, then is updated
/// after the action was carried out.
pub trait EntityBehavior {
    fn think(&self, pos: &Vec2u, map: &GameMap) -> Action;

    fn update(&mut self, action: Action);
}

impl EntityBehavior for LivingData {
    /// A living creature does what it was told to do.
    fn think(&self, pos: &Vec2u, map: &GameMap) -> (r: Action)
        ensures
            r == self.action,
    {
        self.action
    }

    /// After an update the creature is idle again.
    fn update(&mut self, action: Action)
        ensures
            *final(self) == (LivingData { action: Action::Idle, ..*old(self) }),
    {
        self.action = Action::Idle;
    }
}

impl LivingData {
    /// Takes `amount` of damage; health stops at zero. Returns the health left.
    pub fn damage(&mut self, amount: u32) -> (r: u32)
        ensures
            final(self).health == (if amount >= old(self).health {
                0
            } else {
                old(self).health - amount
            }),
            final(self).direction == old(self).direction,
            final(self).action == old(self).action,
            r == final(self).health,
    {
        self.health = self.health.saturating_sub(amount);
        self.health
    }
}

impl EntityData {
    /// The living state of the entity, whatever its kind.
    pub open spec fn living(self) -> LivingData {
        match self {
            EntityData::Player(l) => l,
            EntityData::Skeleton(l) => l,
        }
    }

    /// The same entity with another living state.
    pub open spec fn with_living(self, l: LivingData) -> EntityData {
        match self {
            EntityData::Player(_) => EntityData::Player(l),
            EntityData::Skeleton(_) => EntityData::Skeleton(l),
        }
    }

    /// The entity as it is after an update: the same, but idle.
    pub open spec fn idle(self) -> EntityData {
        self.with_living(LivingData { action: Action::Idle, ..self.living() })
    }

    /// What the entity decides to do next: for every kind, the action it holds.
    pub fn think(&self, pos: &Vec2u, map: &GameMap) -> (r: Action)
        ensures
            r == self.living().action,
    {
        match self {
            EntityData::Player(living) => { living.think(pos, map) },
            EntityData::Skeleton(living) => { living.think(pos, map) },
        }
    }

    /// Updates the entity after `action` was carried out: it becomes idle.
    pub fn update(&mut self, action: Action)
        ensures
            *final(self) == old(self).idle(),
    {
        match self {
            EntityData::Player(living) => { living.update(action) },
            EntityData::Skeleton(living) => { living.update(action) },
        }
    }
}

/// An update leaves an entity of the same kind, with the same health and
/// facing, and idle; updating it once more changes nothing.
pub proof fn lemma_update_idles(data: EntityData)
    ensures
        data.idle().living().action == Action::Idle,
        data.idle().living().health == data.living().health,
        data.idle().living().direction == data.living().direction,
        data.idle().idle() == data.idle(),
        (data is Player) == (data.idle() is Player),
{
}

} // verus!
