use std::collections::HashMap;
use vstd::prelude::*;

use crate::util::vec2::Vec2;
use crate::util::vec2::Vec2u;
use crate::world::entity::Entity;
use crate::world::game_map::key_of;
use crate::world::game_map::lemma_cell_index;
use crate::world::game_map::pos_key;
use crate::world::game_map::GameMap;

verus! {

/// A terminal colour: one of the 256 indexed colours, or the named magenta.
#[derive(Debug, Clone, Copy, PartialEq, Eq, Structural)]
pub enum Color {
    Ansi(u8),
    Magenta,
}

/// How one map cell is drawn: two columns of text with an optional
/// foreground and background colour, bold or not.
#[derive(Debug, Clone, Copy, PartialEq, Eq)]
pub struct Glyph {
    pub text: &'static str,
    pub fg: Option<Color>,
    pub bg: Option<Color>,
    pub bold: bool,
}

/// A glyph with the given text and styles.
pub open spec fn glyph(text: &'static str, fg: Option<Color>, bg: Option<Color>, bold: bool) -> Glyph {
    Glyph { text, fg, bg, bold }
}

/// The smaller of two numbers.
pub open spec fn min_u16(a: u16, b: u16) -> u16 {
    if a < b {
        a
    } else {
        b
    }
}

/// `a - b`, or 0 when `b` is larger.
pub open spec fn sat_sub(a: u16, b: u16) -> u16 {
    if a < b {
        0
    } else {
        (a - b) as u16
    }
}

/// The part of the map that is drawn, as first column, first row, end
/// column and end row (the ends excluded): a window of `min(cols,
/// render_width) / 2 - 1` columns (each cell takes two terminal columns)
/// and `rows - 1` rows, centred on the camera where the map allows, kept
/// inside the map, and cut at the map's edge.
pub open spec fn window_of(
    cam_pos: Vec2u,
    map_width: u16,
    map_height: u16,
    term_cols: u16,
    term_rows: u16,
    render_width: u16,
) -> (u16, u16, u16, u16) {
    let cam_width = (min_u16(term_cols, render_width) / 2 - 1) as u16;
    let cam_height = (term_rows - 1) as u16;
    let start_x = min_u16(sat_sub(cam_pos.x, cam_width / 2), sat_sub(map_width, cam_width));
    let start_y = min_u16(sat_sub(cam_pos.y, cam_height / 2), sat_sub(map_height, cam_height));
    let end_x = min_u16(map_width, (start_x + cam_width) as u16);
    let end_y = min_u16(map_height, (start_y + cam_height) as u16);
    (start_x, start_y, end_x, end_y)
}

/// The camera's window is as large as the map and the room allow and
/// follows the camera: with `cw` the columns (half the usable terminal
/// columns, less one) and `ch` the rows (the terminal rows less one) of
/// room, the window is `min(map_width, cw)` cells wide and
/// `min(map_height, ch)` rows high and lies inside the map; along each axis
/// it starts at the map's edge when the map fits in the room or the camera
/// is within half the room of that edge, is centred on the camera (starting
/// half the room before it) when the map allows, and otherwise ends at the
/// map's far edge.
pub proof fn lemma_window_fits_and_follows(
    cam_pos: Vec2u,
    map_width: u16,
    map_height: u16,
    term_cols: u16,
    term_rows: u16,
    render_width: u16,
)
    requires
        min_u16(term_cols, render_width) >= 2,
        term_rows >= 1,
    ensures
        ({
            let (sx, sy, ex, ey) = window_of(
                cam_pos,
                map_width,
                map_height,
                term_cols,
                term_rows,
                render_width,
            );
            let cw: int = (if term_cols < render_width {
                term_cols
            } else {
                render_width
            }) / 2 - 1;
            let ch: int = term_rows - 1;
            let mw: int = map_width as int;
            let mh: int = map_height as int;
            let cx: int = cam_pos.x as int;
            let cy: int = cam_pos.y as int;
            &&& ex - sx == (if mw < cw {
                mw
            } else {
                cw
            })
            &&& ey - sy == (if mh < ch {
                mh
            } else {
                ch
            })
            &&& 0 <= sx <= ex <= mw
            &&& 0 <= sy <= ey <= mh
            &&& (mw <= cw || cx < cw / 2) ==> sx == 0
            &&& (mw > cw && cx >= cw / 2 && cx - cw / 2 + cw <= mw) ==> sx == cx - cw / 2
            &&& (mw > cw && cx >= cw / 2 && cx - cw / 2 + cw > mw) ==> ex == mw
            &&& (mh <= ch || cy < ch / 2) ==> sy == 0
            &&& (mh > ch && cy >= ch / 2 && cy - ch / 2 + ch <= mh) ==> sy == cy - ch / 2
            &&& (mh > ch && cy >= ch / 2 && cy - ch / 2 + ch > mh) ==> ey == mh
        }),
{
}

/// The window of map cells that is drawn on a terminal of `term_cols` by
/// `term_rows`, of which the map may use `render_width` columns; see
/// `window_of`. The window lies inside the map and is no larger than the
/// room it is drawn in.
pub fn view_window(
    cam_pos: Vec2u,
    map_width: u16,
    map_height: u16,
    term_cols: u16,
    term_rows: u16,
    render_width: u16,
) -> (r: (u16, u16, u16, u16))
    requires
        min_u16(term_cols, render_width) >= 2,
        term_rows >= 1,
    ensures
        r == window_of(cam_pos, map_width, map_height, term_cols, term_rows, render_width),
        r.0 <= r.2 <= map_width,
        r.1 <= r.3 <= map_height,
        r.2 - r.0 <= min_u16(term_cols, render_width) / 2 - 1,
        r.3 - r.1 <= term_rows - 1,
{
    let narrow = if term_cols < render_width {
        term_cols
    } else {
        render_width
    };
    let cam_width = narrow / 2 - 1;
    let cam_height = term_rows - 1;
    let half_w = cam_width / 2;
    let half_h = cam_height / 2;
    let from_cam_x = if cam_pos.x < half_w {
        0
    } else {
        cam_pos.x - half_w
    };
    let last_x = if map_width < cam_width {
        0
    } else {
        map_width - cam_width
    };
    let start_x = if from_cam_x < last_x {
        from_cam_x
    } else {
        last_x
    };
    let from_cam_y = if cam_pos.y < half_h {
        0
    } else {
        cam_pos.y - half_h
    };
    let last_y = if map_height < cam_height {
        0
    } else {
        map_height - cam_height
    };
    let start_y = if from_cam_y < last_y {
        from_cam_y
    } else {
        last_y
    };
    let end_x = if map_width < start_x + cam_width {
        map_width
    } else {
        start_x + cam_width
    };
    let end_y = if map_height < start_y + cam_height {
        map_height
    } else {
        start_y + cam_height
    };
    (start_x, start_y, end_x, end_y)
}

/// How the cell at `x`, `y` of the map is drawn, given the map's entities
/// by position (see `GameMap::entities_by_pos`): the entity that stands
/// there if there is one, else the tile.
pub fn cell_glyph(entities: &HashMap<u32, &Entity>, map: &GameMap, x: u16, y: u16) -> (r: Glyph)
    requires
        map.wf(),
        map.in_bounds(x as int, y as int),
    ensures
        entities@.contains_key(key_of(Vec2 { x, y })) ==> r == entities@[key_of(
            Vec2 { x, y },
        )].glyph_of(),
        !entities@.contains_key(key_of(Vec2 { x, y })) ==> r == map.tile(
            x as int,
            y as int,
        ).glyph_of(),
{
    match entities.get(&pos_key(x, y)) {
        Some(entity) => entity.repr(),
        None => {
            proof {
                lemma_cell_index(map.spec_width() as int, map.spec_height() as int, x as int, y as int);
            }
            map.tile_at(x, y).repr()
        },
    }
}

/// The terminal column at which the information panel starts: three
/// quarters of the width.
pub fn info_column(term_cols: u16) -> (r: u16)
    requires
        term_cols * 3 <= u16::MAX,
    ensures
        r == term_cols * 3 / 4,
{
    term_cols * 3 / 4
}

} // verus!
