use vstd::prelude::*;

use crate::render::Color;
use crate::render::Glyph;
use crate::render::glyph;

verus! {

/// The terrain of one map cell.
#[derive(Debug, Clone, Copy, PartialEq, Eq, Structural)]
pub enum Tile {
    Floor,
    Wall,
    Vent,
    Grass,
    Tree,
    RockFloor,
    RockWall,
    Water,
    Lava,
    /// A door; `true` when it stands open.
    Door(bool),
    Tunnel,
    StairUp,
    StairDown,
}

impl Tile {
    /// Whether an entity may step onto this tile: walls, rock walls, trees,
    /// water, lava and closed doors block, everything else lets through.
    pub open spec fn passable(self) -> bool {
        match self {
            Tile::Wall => false,
            Tile::RockWall => false,
            Tile::Tree => false,
            Tile::Water => false,
            Tile::Lava => false,
            Tile::Door(is_open) => is_open,
            _ => true,
        }
    }

    /// The change of level that a warp tile leads to; `None` for other tiles.
    pub open spec fn level_delta(self) -> Option<i32> {
        match self {
            Tile::Tunnel => Some(0i32),
            Tile::StairDown => Some(1i32),
            Tile::StairUp => Some(-1i32),
            _ => None,
        }
    }

    /// The warp tile that leads in the given direction of levels.
    pub open spec fn warp_for(direction: i32) -> Tile {
        if direction == -1 {
            Tile::StairUp
        } else if direction == 1 {
            Tile::StairDown
        } else {
            Tile::Tunnel
        }
    }

    /// How the tile is drawn.
    pub open spec fn glyph_of(self) -> Glyph {
        match self {
            Tile::Floor => glyph(" .", Some(Color::Ansi(68)), None, false),
            Tile::Wall => glyph("##", None, Some(Color::Ansi(8)), false),
            Tile::Vent => glyph("=\u{305}=\u{305}", None, None, true),
            Tile::Grass => glyph(" ,", Some(Color::Ansi(70)), None, false),
            Tile::Tree => glyph(" 7", Some(Color::Ansi(2)), None, false),
            Tile::RockFloor => glyph(",'", Some(Color::Ansi(178)), None, false),
            Tile::RockWall => glyph("//", None, Some(Color::Ansi(130)), false),
            Tile::Water => glyph(",~", None, Some(Color::Ansi(39)), false),
            Tile::Lava => glyph("/~", Some(Color::Ansi(11)), Some(Color::Ansi(202)), false),
            Tile::Door(is_open) => glyph(if is_open { "|+" } else { "||" }, None, None, true),
            Tile::StairDown => glyph(">>", None, Some(Color::Ansi(233)), true),
            Tile::StairUp => glyph("<<", None, Some(Color::Ansi(233)), true),
            Tile::Tunnel => glyph("><", None, Some(Color::Ansi(233)), true),
        }
    }

    /// How the tile is drawn on the terminal.
    pub fn repr(&self) -> (r: Glyph)
        ensures
            r == self.glyph_of(),
    {
        match self {
            Tile::Floor => Glyph { text: " .", fg: Some(Color::Ansi(68)), bg: None, bold: false },
            Tile::Wall => Glyph { text: "##", fg: None, bg: Some(Color::Ansi(8)), bold: false },
            Tile::Vent => Glyph { text: "=\u{305}=\u{305}", fg: None, bg: None, bold: true },
            Tile::Grass => Glyph { text: " ,", fg: Some(Color::Ansi(70)), bg: None, bold: false },
            Tile::Tree => Glyph { text: " 7", fg: Some(Color::Ansi(2)), bg: None, bold: false },
            Tile::RockFloor => Glyph { text: ",'", fg: Some(Color::Ansi(178)), bg: None, bold: false },
            Tile::RockWall => Glyph { text: "//", fg: None, bg: Some(Color::Ansi(130)), bold: false },
            Tile::Water => Glyph { text: ",~", fg: None, bg: Some(Color::Ansi(39)), bold: false },
            Tile::Lava => Glyph {
                text: "/~",
                fg: Some(Color::Ansi(11)),
                bg: Some(Color::Ansi(202)),
                bold: false,
            },
            Tile::Door(is_open) => {
                let v = if *is_open { "|+" } else { "||" };
                Glyph { text: v, fg: None, bg: None, bold: true }
            },
            Tile::StairDown => Glyph { text: ">>", fg: None, bg: Some(Color::Ansi(233)), bold: true },
            Tile::StairUp => Glyph { text: "<<", fg: None, bg: Some(Color::Ansi(233)), bold: true },
            Tile::Tunnel => Glyph { text: "><", fg: None, bg: Some(Color::Ansi(233)), bold: true },
        }
    }

    /// Whether an entity may step onto this tile.
    pub fn is_passable(&self) -> (r: bool)
        ensures
            r == self.passable(),
    {
        match self {
            Tile::Wall => false,
            Tile::RockWall => false,
            Tile::Tree => false,
            Tile::Water => false,
            Tile::Lava => false,
            Tile::Door(is_open) => *is_open,
            _ => true,
        }
    }

    /// The change of level that this tile warps to, if it is a warp tile.
    pub fn get_level_delta(&self) -> (r: Option<i32>)
        ensures
            r == self.level_delta(),
    {
        match self {
            Tile::Tunnel => Some(0),
            Tile::StairDown => Some(1),
            Tile::StairUp => Some(-1),
            _ => None,
        }
    }

    /// The warp tile for a change of level: stairs up for `-1`, stairs down
    /// for `1`, a tunnel for anything else.
    pub fn warp_from_direction(direction: i32) -> (r: Tile)
        ensures
            r == Tile::warp_for(direction),
    {
        match direction {
            -1 => Tile::StairUp,
            1 => Tile::StairDown,
            _ => Tile::Tunnel,
        }
    }
}

/// Every direction of levels leads to a warp tile, and the warp tile for `-1`,
/// `0` or `1` leads back exactly that many levels.
pub proof fn lemma_warp_tile_round_trip(direction: i32)
    ensures
        Tile::warp_for(direction).level_delta() is Some,
        -1 <= direction <= 1 ==> Tile::warp_for(direction).level_delta() == Some(direction),
        Tile::warp_for(direction).passable(),
{
}

} // verus!
