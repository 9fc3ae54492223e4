use std::collections::HashMap;
use std::collections::HashSet;
use vstd::prelude::*;

use crate::util::direction::Direction;
use crate::util::hash::collect_keys;
use crate::util::hash::map_get_mut;
use crate::util::vec2::Vec2;
use crate::util::vec2::Vec2i;
use crate::util::vec2::Vec2u;
use crate::world::entity::Action;
use crate::world::entity::Entity;
use crate::world::entity::EntityData;
use crate::world::tile::Tile;
use crate::world::world::TargetInfo;
use crate::world::world::WorldAction;

verus! {

broadcast use vstd::std_specs::hash::group_hash_axioms;

/// The key under which a map's tables of warps store a position.
pub open spec fn key_of(p: Vec2u) -> u32 {
    (p.x * 65536 + p.y) as u32
}

/// The key under which a map's tables of warps store the cell at `x`, `y`.
pub fn pos_key(x: u16, y: u16) -> (r: u32)
    ensures
        r == key_of(Vec2 { x, y }),
{
    x as u32 * 65536 + y as u32
}

/// Two positions share a key exactly when they are the same position.
pub proof fn lemma_key_of_injective(p: Vec2u, q: Vec2u)
    ensures
        key_of(p) == key_of(q) <==> p == q,
{
}

/// A cell inside a `w` by `h` grid has an index below `w * h`, from which its
/// column and row come back by remainder and quotient.
pub proof fn lemma_cell_index(w: int, h: int, x: int, y: int)
    requires
        0 <= x < w,
        0 <= y < h,
    ensures
        0 <= y * w + x < w * h,
        (y * w + x) % w == x,
        (y * w + x) / w == y,
{
    assert(0 <= y * w + x < w * h) by (nonlinear_arith)
        requires
            0 <= x < w,
            0 <= y < h,
    ;
    vstd::arithmetic::div_mod::lemma_fundamental_div_mod_converse(y * w + x, w, y, x);
}

/// One level of the world: a grid of tiles, its warps and the entities on it.
pub struct GameMap {
    width: u16,
    height: u16,
    warps: HashMap<u32, TargetInfo>,
    free_warps_to_next: HashSet<u32>,
    tiles: Vec<Tile>,
    entities: HashMap<u32, Entity>,
    entity_id_counter: u32,
}

/// The ids that a list of world actions names, in order.
pub open spec fn warp_ids(acts: Seq<WorldAction>) -> Seq<u32> {
    acts.map_values(|a: WorldAction| a->entity_id)
}

impl GameMap {
    /// The number of columns.
    pub closed spec fn spec_width(&self) -> u16 {
        self.width
    }

    /// The number of rows.
    pub closed spec fn spec_height(&self) -> u16 {
        self.height
    }

    /// The tiles, row after row.
    pub closed spec fn tiles_view(&self) -> Seq<Tile> {
        self.tiles@
    }

    /// The linked warps, by the key of their position.
    pub closed spec fn warps_view(&self) -> Map<u32, TargetInfo> {
        self.warps@
    }

    /// The keys of the positions of warps that lead to the next level and
    /// are not linked yet.
    pub closed spec fn free_warps_view(&self) -> Set<u32> {
        self.free_warps_to_next@
    }

    /// The entities, by id.
    pub closed spec fn entities_view(&self) -> Map<u32, Entity> {
        self.entities@
    }

    /// The id that the next added entity gets.
    pub closed spec fn next_id(&self) -> u32 {
        self.entity_id_counter
    }

    /// The number of cells.
    pub open spec fn cell_count(&self) -> int {
        self.spec_width() * self.spec_height()
    }

    /// The index of the cell at `x`, `y` in the row-major tile list.
    pub open spec fn index_of(&self, x: int, y: int) -> int {
        y * self.spec_width() + x
    }

    /// The tile at `x`, `y`.
    pub open spec fn tile(&self, x: int, y: int) -> Tile {
        self.tiles_view()[self.index_of(x, y)]
    }

    /// Whether `x`, `y` is a cell of the map.
    pub open spec fn in_bounds(&self, x: int, y: int) -> bool {
        0 <= x < self.spec_width() && 0 <= y < self.spec_height()
    }

    /// The map's invariant: one tile per cell, the cell count fits in a
    /// `u16`, finitely many entities, and every entity id is below the next
    /// id to hand out.
    pub open spec fn wf(&self) -> bool {
        &&& self.cell_count() <= u16::MAX
        &&& self.tiles_view().len() == self.cell_count()
        &&& self.entities_view().dom().finite()
        &&& forall|k: u32| #[trigger] self.entities_view().contains_key(k) ==> k < self.next_id()
    }

    /// The two maps have the same size, tiles and warps.
    pub open spec fn same_terrain(&self, other: &GameMap) -> bool {
        &&& self.spec_width() == other.spec_width()
        &&& self.spec_height() == other.spec_height()
        &&& self.tiles_view() == other.tiles_view()
        &&& self.warps_view() == other.warps_view()
        &&& self.free_warps_view() == other.free_warps_view()
    }

    /// Where an entity at `pos` stands after it tried one step in direction
    /// `d`: the next cell if it is on the map and passable, else where it was.
    pub open spec fn step_from(&self, pos: Vec2u, d: Direction) -> Vec2u {
        let nx = pos.x + d.dx();
        let ny = pos.y + d.dy();
        if self.in_bounds(nx, ny) && self.tile(nx, ny).passable() {
            Vec2 { x: nx as u16, y: ny as u16 }
        } else {
            pos
        }
    }

    /// The entity after one update of this map: moved if it wanted to move,
    /// and idle.
    pub open spec fn moved(&self, e: Entity) -> Entity {
        Entity {
            id: e.id,
            pos: match e.data.living().action {
                Action::Move(d) => self.step_from(e.pos, d),
                _ => e.pos,
            },
            data: e.data.idle(),
        }
    }

    /// The entity after it carried out `action` (whatever it held itself):
    /// moved one step if the action is a move and the step is possible, and
    /// idle.
    pub open spec fn acted(&self, e: Entity, action: Action) -> Entity {
        Entity {
            id: e.id,
            pos: match action {
                Action::Move(d) => self.step_from(e.pos, d),
                _ => e.pos,
            },
            data: e.data.idle(),
        }
    }

    /// One pair of a list of decisions, carried out on the entities `ents`
    /// of this map's terrain: an absent entity is left alone; a present one
    /// acts (see `acted`), and is reported when the action is a warp and it
    /// stands on one.
    pub open spec fn resolve_one(&self, ents: Map<u32, Entity>, id: u32, action: Action) -> (
        Map<u32, Entity>,
        Option<u32>,
    ) {
        if !ents.contains_key(id) {
            (ents, None)
        } else {
            (
                ents.insert(id, self.acted(ents[id], action)),
                if action == Action::UseWarpTile && self.warps_view().contains_key(
                    key_of(ents[id].pos),
                ) {
                    Some(id)
                } else {
                    None
                },
            )
        }
    }

    /// A list of decisions carried out one after the other (see
    /// `resolve_one`): the entities afterwards and the reported warp
    /// requests, in the order of the list.
    pub open spec fn resolve_all(&self, ents: Map<u32, Entity>, actions: Seq<(u32, Action)>) -> (
        Map<u32, Entity>,
        Seq<u32>,
    )
        decreases actions.len(),
    {
        if actions.len() == 0 {
            (ents, Seq::empty())
        } else {
            let (e1, w1) = self.resolve_all(ents, actions.drop_last());
            let (e2, w) = self.resolve_one(e1, actions.last().0, actions.last().1);
            (
                e2,
                match w {
                    Some(x) => w1.push(x),
                    None => w1,
                },
            )
        }
    }

    /// Carrying out decisions keeps the set of entity ids.
    pub proof fn lemma_resolve_all_dom(&self, ents: Map<u32, Entity>, actions: Seq<(u32, Action)>)
        ensures
            self.resolve_all(ents, actions).0.dom() == ents.dom(),
        decreases actions.len(),
    {
        if actions.len() > 0 {
            self.lemma_resolve_all_dom(ents, actions.drop_last());
            let e1 = self.resolve_all(ents, actions.drop_last()).0;
            assert(self.resolve_all(ents, actions).0.dom() =~= e1.dom());
        }
    }

    /// An entity that no pair of the list names is left as it was and is
    /// never reported.
    pub proof fn lemma_resolve_all_unnamed(
        &self,
        ents: Map<u32, Entity>,
        actions: Seq<(u32, Action)>,
        id: u32,
    )
        requires
            forall|j: int| 0 <= j < actions.len() ==> (#[trigger] actions[j]).0 != id,
        ensures
            self.resolve_all(ents, actions).0.contains_key(id) == ents.contains_key(id),
            ents.contains_key(id) ==> self.resolve_all(ents, actions).0[id] == ents[id],
            !self.resolve_all(ents, actions).1.contains(id),
        decreases actions.len(),
    {
        if actions.len() > 0 {
            let rest = actions.drop_last();
            assert forall|j: int| 0 <= j < rest.len() implies (#[trigger] rest[j]).0 != id by {
                assert(rest[j] == actions[j]);
            }
            self.lemma_resolve_all_unnamed(ents, rest, id);
            assert(actions[actions.len() - 1].0 != id);
        }
    }

    /// When each entity of the map is named once, with the action it holds,
    /// carrying out the list moves every entity as an update does, and
    /// reports each entity that wants to use a warp and stands on one, once.
    pub proof fn lemma_resolve_own_actions(&self, actions: Seq<(u32, Action)>)
        requires
            forall|j: int|
                0 <= j < actions.len() ==> self.entities_view().contains_key(
                    (#[trigger] actions[j]).0,
                ) && actions[j].1 == self.entities_view()[actions[j].0].data.living().action,
            forall|j: int, k: int|
                0 <= j < k < actions.len() ==> (#[trigger] actions[j]).0 != (
                #[trigger] actions[k]).0,
        ensures
            ({
                let (ents, ws) = self.resolve_all(self.entities_view(), actions);
                &&& ents.dom() == self.entities_view().dom()
                &&& forall|j: int|
                    0 <= j < actions.len() ==> ents[(#[trigger] actions[j]).0] == self.moved(
                        self.entities_view()[actions[j].0],
                    )
                &&& forall|id: u32|
                    self.entities_view().contains_key(id) && (forall|j: int|
                        0 <= j < actions.len() ==> (#[trigger] actions[j]).0 != id) ==> ents[id]
                        == self.entities_view()[id]
                &&& ws.no_duplicates()
                &&& forall|w: u32| #[trigger]
                    ws.contains(w) <==> (self.wants_warp(w) && exists|j: int|
                        0 <= j < actions.len() && actions[j].0 == w)
            }),
        decreases actions.len(),
    {
        let ents0 = self.entities_view();
        self.lemma_resolve_all_dom(ents0, actions);
        if actions.len() > 0 {
            let rest = actions.drop_last();
            let (id, action) = actions.last();
            assert forall|j: int, k: int| 0 <= j < k < rest.len() implies (#[trigger] rest[j]).0 != (
            #[trigger] rest[k]).0 by {
                assert(rest[j] == actions[j] && rest[k] == actions[k]);
            }
            assert forall|j: int| 0 <= j < rest.len() implies ents0.contains_key(
                (#[trigger] rest[j]).0,
            ) && rest[j].1 == ents0[rest[j].0].data.living().action by {
                assert(rest[j] == actions[j]);
            }
            self.lemma_resolve_own_actions(rest);
            self.lemma_resolve_all_dom(ents0, rest);
            let (e1, w1) = self.resolve_all(ents0, rest);
            assert(actions[actions.len() - 1] == (id, action));
            assert forall|j: int| 0 <= j < rest.len() implies (#[trigger] rest[j]).0 != id by {
                assert(rest[j] == actions[j]);
            }
            assert(e1[id] == ents0[id]);
            let (e2, w) = self.resolve_one(e1, id, action);
            assert(e2[id] == self.moved(ents0[id]));
            assert(!w1.contains(id));
            assert forall|j: int| 0 <= j < actions.len() implies e2[(#[trigger] actions[j]).0]
                == self.moved(ents0[actions[j].0]) by {
                if j < rest.len() {
                    assert(rest[j] == actions[j]);
                    assert(rest[j].0 != id);
                }
            }
            assert forall|x: u32|
                ents0.contains_key(x) && (forall|j: int|
                    0 <= j < actions.len() ==> (#[trigger] actions[j]).0 != x) implies e2[x]
                == ents0[x] by {
                assert forall|j: int| 0 <= j < rest.len() implies (#[trigger] rest[j]).0 != x by {
                    assert(rest[j] == actions[j]);
                }
                assert(actions[actions.len() - 1].0 != x);
            }
            let ws = self.resolve_all(ents0, actions).1;
            assert forall|x: u32| #[trigger]
                ws.contains(x) <==> (self.wants_warp(x) && exists|j: int|
                    0 <= j < actions.len() && actions[j].0 == x) by {
                if ws.contains(x) {
                    if w1.contains(x) {
                        let j = choose|j: int| 0 <= j < rest.len() && rest[j].0 == x;
                        assert(actions[j] == rest[j]);
                    } else {
                        assert(x == id);
                        assert(actions[actions.len() - 1].0 == x);
                    }
                }
                if self.wants_warp(x) && exists|j: int| 0 <= j < actions.len() && actions[j].0 == x {
                    let j = choose|j: int| 0 <= j < actions.len() && actions[j].0 == x;
                    if j < rest.len() {
                        assert(rest[j] == actions[j]);
                        assert(w1.contains(x));
                        assert(ws == w1 || ws == w1.push(id));
                        if ws == w1.push(id) {
                            assert(ws[w1.index_of(x)] == x);
                        }
                    } else {
                        assert(x == id);
                        assert(ws == w1.push(id));
                        assert(ws[w1.len() as int] == id);
                    }
                }
            }
        } else {
            assert(self.resolve_all(ents0, actions).1 =~= Seq::<u32>::empty());
        }
    }

    /// Whether the entity with this id wants to use a warp and stands on one.
    pub open spec fn wants_warp(&self, id: u32) -> bool {
        &&& self.entities_view().contains_key(id)
        &&& self.entities_view()[id].data.living().action == Action::UseWarpTile
        &&& self.warps_view().contains_key(key_of(self.entities_view()[id].pos))
    }

    /// A map of `width` by `height` cells, all `value`, with no warps and no
    /// entities.
    pub fn new(width: u16, height: u16, value: &Tile) -> (r: Self)
        requires
            width * height <= u16::MAX,
        ensures
            r.wf(),
            r.spec_width() == width,
            r.spec_height() == height,
            r.tiles_view() == Seq::new((width * height) as nat, |i: int| *value),
            r.warps_view() == Map::<u32, TargetInfo>::empty(),
            r.free_warps_view() == Set::<u32>::empty(),
            r.entities_view() == Map::<u32, Entity>::empty(),
            r.next_id() == 0,
    {
        let count: u16 = width * height;
        let mut tiles: Vec<Tile> = Vec::with_capacity(count as usize);
        let mut i: u16 = 0;
        while i < count
            invariant
                i <= count,
                tiles@ == Seq::new(i as nat, |j: int| *value),
            decreases count - i,
        {
            tiles.push(*value);
            i = i + 1;
        }
        GameMap {
            width,
            height,
            tiles,
            entities: HashMap::new(),
            warps: HashMap::new(),
            free_warps_to_next: HashSet::new(),
            entity_id_counter: 0,
        }
    }

    /// The number of columns.
    pub fn get_width(&self) -> (r: u16)
        ensures
            r == self.spec_width(),
    {
        self.width
    }

    /// The number of rows.
    pub fn get_height(&self) -> (r: u16)
        ensures
            r == self.spec_height(),
    {
        self.height
    }

    /// The number of columns and rows.
    pub fn get_size(&self) -> (r: (u16, u16))
        ensures
            r == (self.spec_width(), self.spec_height()),
    {
        (self.width, self.height)
    }

    /// The tile at `x`, `y`: the one at index `y * width + x`.
    pub fn tile_at(&self, x: u16, y: u16) -> (r: &Tile)
        requires
            self.wf(),
            self.index_of(x as int, y as int) < self.cell_count(),
        ensures
            *r == self.tile(x as int, y as int),
    {
        &self.tiles[(y * self.width + x) as usize]
    }

    /// A mutable reference to the tile at `x`, `y`; what is written through
    /// it becomes that tile, and nothing else changes.
    pub fn tile_at_mut(&mut self, x: u16, y: u16) -> (r: &mut Tile)
        requires
            old(self).wf(),
            old(self).index_of(x as int, y as int) < old(self).cell_count(),
        ensures
            *r == old(self).tile(x as int, y as int),
            final(self).tiles_view() == old(self).tiles_view().update(
                old(self).index_of(x as int, y as int),
                *final(r),
            ),
            final(self).spec_width() == old(self).spec_width(),
            final(self).spec_height() == old(self).spec_height(),
            final(self).warps_view() == old(self).warps_view(),
            final(self).free_warps_view() == old(self).free_warps_view(),
            final(self).entities_view() == old(self).entities_view(),
            final(self).next_id() == old(self).next_id(),
    {
        &mut self.tiles[(y * self.width + x) as usize]
    }

    /// Whether the tile at `x`, `y` lets entities through.
    pub fn is_passable(&self, x: u16, y: u16) -> (r: bool)
        requires
            self.wf(),
            self.index_of(x as int, y as int) < self.cell_count(),
        ensures
            r == self.tile(x as int, y as int).passable(),
    {
        self.tiles[(y * self.width + x) as usize].is_passable()
    }

    /// Sets every tile to what `f` gives for its column and row.
    pub fn fill<F>(&mut self, f: F) where F: Fn(u16, u16) -> Tile
        requires
            old(self).wf(),
            forall|x: u16, y: u16|
                x < old(self).spec_width() && y < old(self).spec_height() ==> call_requires(
                    f,
                    (x, y),
                ),
        ensures
            final(self).wf(),
            final(self).spec_width() == old(self).spec_width(),
            final(self).spec_height() == old(self).spec_height(),
            final(self).warps_view() == old(self).warps_view(),
            final(self).free_warps_view() == old(self).free_warps_view(),
            final(self).entities_view() == old(self).entities_view(),
            final(self).next_id() == old(self).next_id(),
            forall|x: u16, y: u16|
                x < old(self).spec_width() && y < old(self).spec_height() ==> call_ensures(
                    f,
                    (x, y),
                    #[trigger] final(self).tile(x as int, y as int),
                ),
    {
        let w = self.width;
        let h = self.height;
        let ghost pre = *old(self);
        for x in 0..w
            invariant
                self.wf(),
                self.spec_width() == w,
                self.spec_height() == h,
                w == pre.spec_width(),
                h == pre.spec_height(),
                self.warps_view() == pre.warps_view(),
                self.free_warps_view() == pre.free_warps_view(),
                self.entities_view() == pre.entities_view(),
                self.next_id() == pre.next_id(),
                forall|x2: u16, y2: u16| x2 < w && y2 < h ==> call_requires(f, (x2, y2)),
                forall|x2: u16, y2: u16|
                    x2 < x && y2 < h ==> call_ensures(
                        f,
                        (x2, y2),
                        #[trigger] self.tile(x2 as int, y2 as int),
                    ),
        {
            for y in 0..h
                invariant
                    self.wf(),
                    x < w,
                    self.spec_width() == w,
                    self.spec_height() == h,
                    w == pre.spec_width(),
                    h == pre.spec_height(),
                    self.warps_view() == pre.warps_view(),
                    self.free_warps_view() == pre.free_warps_view(),
                    self.entities_view() == pre.entities_view(),
                    self.next_id() == pre.next_id(),
                    forall|x2: u16, y2: u16| x2 < w && y2 < h ==> call_requires(f, (x2, y2)),
                    forall|x2: u16, y2: u16|
                        (x2 < x || (x2 == x && y2 < y)) && y2 < h ==> call_ensures(
                            f,
                            (x2, y2),
                            #[trigger] self.tile(x2 as int, y2 as int),
                        ),
            {
                let t = f(x, y);
                proof {
                    lemma_cell_index(w as int, h as int, x as int, y as int);
                }
                let ghost before = *self;
                *self.tile_at_mut(x, y) = t;
                assert forall|x2: u16, y2: u16|
                    (x2 < x || (x2 == x && y2 < y + 1)) && y2 < h implies call_ensures(
                    f,
                    (x2, y2),
                    #[trigger] self.tile(x2 as int, y2 as int),
                ) by {
                    lemma_cell_index(w as int, h as int, x2 as int, y2 as int);
                    if x2 != x || y2 != y {
                        assert(before.tile(x2 as int, y2 as int) == self.tile(x2 as int, y2 as int));
                    }
                }
            }
        }
    }

    /// Where the warp at `x`, `y` leads, if there is one.
    pub fn warp_at(&self, x: u16, y: u16) -> (r: Option<&TargetInfo>)
        ensures
            match r {
                Some(t) => self.warps_view().contains_key(key_of(Vec2 { x, y }))
                    && *t == self.warps_view()[key_of(Vec2 { x, y })],
                None => !self.warps_view().contains_key(key_of(Vec2 { x, y })),
            },
    {
        self.warps.get(&pos_key(x, y))
    }

    /// Makes `x`, `y` a warp to `target_info`, replacing any warp there.
    pub fn add_warp(&mut self, x: u16, y: u16, target_info: TargetInfo)
        ensures
            final(self).warps_view() == old(self).warps_view().insert(
                key_of(Vec2 { x, y }),
                target_info,
            ),
            final(self).spec_width() == old(self).spec_width(),
            final(self).spec_height() == old(self).spec_height(),
            final(self).tiles_view() == old(self).tiles_view(),
            final(self).free_warps_view() == old(self).free_warps_view(),
            final(self).entities_view() == old(self).entities_view(),
            final(self).next_id() == old(self).next_id(),
    {
        self.warps.insert(pos_key(x, y), target_info);
    }

    /// Records `x`, `y` as a warp to the next level that is not linked yet.
    pub fn add_free_warp(&mut self, x: u16, y: u16)
        ensures
            final(self).free_warps_view() == old(self).free_warps_view().insert(
                key_of(Vec2 { x, y }),
            ),
            final(self).spec_width() == old(self).spec_width(),
            final(self).spec_height() == old(self).spec_height(),
            final(self).tiles_view() == old(self).tiles_view(),
            final(self).warps_view() == old(self).warps_view(),
            final(self).entities_view() == old(self).entities_view(),
            final(self).next_id() == old(self).next_id(),
    {
        self.free_warps_to_next.insert(pos_key(x, y));
    }

    /// Links the warp at `x`, `y` to `target_info`: it is no longer free, and
    /// it leads there.
    pub fn link_free_warp_to_next(&mut self, x: u16, y: u16, target_info: TargetInfo)
        ensures
            final(self).free_warps_view() == old(self).free_warps_view().remove(
                key_of(Vec2 { x, y }),
            ),
            final(self).warps_view() == old(self).warps_view().insert(
                key_of(Vec2 { x, y }),
                target_info,
            ),
            final(self).spec_width() == old(self).spec_width(),
            final(self).spec_height() == old(self).spec_height(),
            final(self).tiles_view() == old(self).tiles_view(),
            final(self).entities_view() == old(self).entities_view(),
            final(self).next_id() == old(self).next_id(),
    {
        let pos = pos_key(x, y);
        self.free_warps_to_next.remove(&pos);
        self.warps.insert(pos, target_info);
    }

    /// The number of entities on the map.
    pub fn entity_count(&self) -> (r: usize)
        ensures
            r == self.entities_view().len(),
    {
        self.entities.len()
    }

    /// The id that the next added entity gets.
    pub fn get_next_entity_id(&self) -> (r: u32)
        ensures
            r == self.next_id(),
    {
        self.entity_id_counter
    }

    /// Hands out the next entity id.
    fn next_entity_id(&mut self) -> (r: u32)
        requires
            old(self).next_id() < u32::MAX,
        ensures
            r == old(self).next_id(),
            final(self).next_id() == old(self).next_id() + 1,
            final(self).same_terrain(old(self)),
            final(self).entities_view() == old(self).entities_view(),
    {
        let id = self.entity_id_counter;
        self.entity_id_counter += 1;
        id
    }

    /// Places a new entity at `pos` and returns its id: the next id, which no
    /// entity on the map had.
    pub fn add_entity(&mut self, data: EntityData, pos: Vec2u) -> (r: u32)
        requires
            old(self).wf(),
            old(self).next_id() < u32::MAX,
        ensures
            final(self).wf(),
            r == old(self).next_id(),
            !old(self).entities_view().contains_key(r),
            final(self).next_id() == r + 1,
            final(self).entities_view() == old(self).entities_view().insert(
                r,
                Entity { id: r, pos, data },
            ),
            final(self).same_terrain(old(self)),
    {
        let id = self.next_entity_id();
        self.entities.insert(id, Entity::new(id, pos, data));
        return id;
    }

    /// The entity with this id, if it is on the map.
    pub fn get_entity(&self, id: u32) -> (r: Option<&Entity>)
        ensures
            match r {
                Some(e) => self.entities_view().contains_key(id) && *e == self.entities_view()[id],
                None => !self.entities_view().contains_key(id),
            },
    {
        self.entities.get(&id)
    }

    /// A mutable reference to the entity with this id, if it is on the map;
    /// what is written through it becomes that entity.
    pub fn get_entity_mut(&mut self, id: u32) -> (r: Option<&mut Entity>)
        ensures
            r is None <==> !old(self).entities_view().contains_key(id),
            r is None ==> final(self).entities_view() == old(self).entities_view(),
            r is Some ==> *r.unwrap() == old(self).entities_view()[id],
            r is Some ==> final(self).entities_view() == old(self).entities_view().insert(
                id,
                *final(r.unwrap()),
            ),
            final(self).same_terrain(old(self)),
            final(self).next_id() == old(self).next_id(),
    {
        map_get_mut(&mut self.entities, id)
    }

    /// Takes the entity with this id off the map and returns what it was.
    pub fn remove_entity(&mut self, id: u32) -> (r: Option<EntityData>)
        ensures
            final(self).entities_view() == old(self).entities_view().remove(id),
            match r {
                Some(d) => old(self).entities_view().contains_key(id) && d == old(
                    self,
                ).entities_view()[id].data,
                None => !old(self).entities_view().contains_key(id),
            },
            final(self).same_terrain(old(self)),
            final(self).next_id() == old(self).next_id(),
    {
        match self.entities.remove(&id) {
            Some(e) => Some(e.data),
            None => None,
        }
    }

    /// The entities by the key of their position. Where several entities
    /// share a cell, one of them stands for the cell.
    pub fn entities_by_pos(&self) -> (r: HashMap<u32, &Entity>)
        ensures
            forall|k: u32|
                #[trigger] r@.contains_key(k) <==> exists|id: u32|
                    self.entities_view().contains_key(id) && key_of(self.entities_view()[id].pos)
                        == k,
            forall|k: u32|
                #[trigger] r@.contains_key(k) ==> exists|id: u32|
                    self.entities_view().contains_key(id) && key_of(self.entities_view()[id].pos)
                        == k && *r@[k] == self.entities_view()[id],
    {
        let ids = collect_keys(&self.entities);
        let mut map: HashMap<u32, &Entity> = HashMap::new();
        for i in 0..ids.len()
            invariant
                ids@.to_set() == self.entities_view().dom(),
                forall|k: u32|
                    #[trigger] map@.contains_key(k) <==> exists|j: int|
                        0 <= j < i && key_of(self.entities_view()[ids@[j]].pos) == k,
                forall|k: u32|
                    #[trigger] map@.contains_key(k) ==> exists|j: int|
                        0 <= j < i && key_of(self.entities_view()[ids@[j]].pos) == k && *map@[k]
                            == self.entities_view()[ids@[j]],
        {
            let id = ids[i];
            assert(ids@.to_set().contains(id));
            let entity = self.entities.get(&id).unwrap();
            map.insert(pos_key(entity.pos.x, entity.pos.y), entity);
            assert forall|k: u32| #[trigger] map@.contains_key(k) implies exists|j: int|
                0 <= j < i + 1 && key_of(self.entities_view()[ids@[j]].pos) == k && *map@[k]
                    == self.entities_view()[ids@[j]] by {
                if k != key_of(entity.pos) {
                    let j = choose|j: int|
                        0 <= j < i && key_of(self.entities_view()[ids@[j]].pos) == k && *map@[k]
                            == self.entities_view()[ids@[j]];
                    assert(0 <= j < i + 1);
                } else {
                    assert(ids@[i as int] == id);
                }
            }
            assert forall|k: u32| #[trigger] map@.contains_key(k) <== exists|j: int|
                0 <= j < i + 1 && key_of(self.entities_view()[ids@[j]].pos) == k by {
                if exists|j: int| 0 <= j < i + 1 && key_of(self.entities_view()[ids@[j]].pos) == k {
                    let j = choose|j: int|
                        0 <= j < i + 1 && key_of(self.entities_view()[ids@[j]].pos) == k;
                    if j < i {
                        assert(exists|j2: int| 0 <= j2 < i && key_of(self.entities_view()[ids@[j2]].pos) == k);
                    }
                }
            }
        }
        assert forall|k: u32| #[trigger] map@.contains_key(k) implies exists|id: u32|
            self.entities_view().contains_key(id) && key_of(self.entities_view()[id].pos) == k
                && *map@[k] == self.entities_view()[id] by {
            let j = choose|j: int|
                0 <= j < ids@.len() && key_of(self.entities_view()[ids@[j]].pos) == k && *map@[k]
                    == self.entities_view()[ids@[j]];
            assert(ids@.to_set().contains(ids@[j]));
        }
        assert forall|k: u32| #[trigger] map@.contains_key(k) <== exists|id: u32|
            self.entities_view().contains_key(id) && key_of(self.entities_view()[id].pos) == k by {
            if exists|id: u32|
                self.entities_view().contains_key(id) && key_of(self.entities_view()[id].pos) == k {
                let id = choose|id: u32|
                    self.entities_view().contains_key(id) && key_of(self.entities_view()[id].pos)
                        == k;
                assert(ids@.to_set().contains(id));
                let j = ids@.index_of(id);
                assert(key_of(self.entities_view()[ids@[j]].pos) == k);
            }
        }
        return map;
    }

    /// Lets every entity decide what to do, then carries the decisions out:
    /// an entity that wants to move steps to the next cell if that cell is on
    /// the map and passable, every entity becomes idle, and the result names
    /// each entity that wants to use a warp and stands on one, once each, in
    /// the order in which the map hands out its entities.
    pub fn update(&mut self) -> (r: Result<Vec<WorldAction>, String>)
        requires
            old(self).wf(),
        ensures
            final(self).wf(),
            final(self).same_terrain(old(self)),
            final(self).next_id() == old(self).next_id(),
            final(self).entities_view().dom() == old(self).entities_view().dom(),
            forall|id: u32| #[trigger]
                old(self).entities_view().contains_key(id) ==> final(self).entities_view()[id]
                    == old(self).moved(old(self).entities_view()[id]),
            match r {
                Ok(acts) => {
                    &&& warp_ids(acts@).no_duplicates()
                    &&& warp_ids(acts@).to_set() == Set::new(|id: u32| old(self).wants_warp(id))
                },
                Err(_) => false,
            },
    {
        let ids = collect_keys(&self.entities);
        let mut actions: Vec<(u32, Action)> = Vec::with_capacity(ids.len());
        for i in 0..ids.len()
            invariant
                ids@.to_set() == self.entities_view().dom(),
                ids@.no_duplicates(),
                actions@.len() == i,
                forall|j: int|
                    0 <= j < i ==> (#[trigger] actions@[j]).0 == ids@[j] && actions@[j].1
                        == self.entities_view()[ids@[j]].data.living().action,
        {
            let id = ids[i];
            assert(ids@.to_set().contains(id));
            let entity = self.entities.get(&id).unwrap();
            actions.push((id, entity.data.think(&entity.pos, self)));
        }
        proof {
            assert forall|id: u32| #[trigger]
                self.entities_view().contains_key(id) implies exists|j: int|
                0 <= j < actions@.len() && actions@[j].0 == id by {
                assert(ids@.to_set().contains(id));
                let j = ids@.index_of(id);
                assert(actions@[j].0 == id);
            }
            assert forall|j: int, k: int| 0 <= j < k < actions@.len() implies (
            #[trigger] actions@[j]).0 != (#[trigger] actions@[k]).0 by {
                assert(ids@[j] != ids@[k]);
            }
            self.lemma_resolve_own_actions(actions@);
        }
        let ghost pre = *self;
        let acts = self.resolve_actions(actions);
        proof {
            let ws = warp_ids(acts@);
            assert forall|id: u32| #[trigger]
                pre.entities_view().contains_key(id) implies self.entities_view()[id] == pre.moved(
                pre.entities_view()[id],
            ) by {
                let j = choose|j: int| 0 <= j < actions@.len() && actions@[j].0 == id;
                assert(self.entities_view()[actions@[j].0] == pre.moved(
                    pre.entities_view()[actions@[j].0],
                ));
            }
            assert(ws.to_set() =~= Set::new(|id: u32| pre.wants_warp(id))) by {
                assert forall|w: u32| ws.to_set().contains(w) <==> pre.wants_warp(w) by {
                    assert(ws.to_set().contains(w) <==> ws.contains(w));
                    if pre.wants_warp(w) {
                        assert(pre.entities_view().contains_key(w));
                    }
                }
            }
        }
        Ok(acts)
    }

    /// Carries out a list of decisions, one pair after the other, as
    /// `resolve_all` describes: a pair for an entity that is not on the map
    /// and that asks for a move or a warp is skipped; every other pair moves
    /// its entity if the listed action is a move, reports it if the listed
    /// action is a warp and it stands on one, and makes it idle. Returns the
    /// warp requests in the order of the list.
    fn resolve_actions(&mut self, actions: Vec<(u32, Action)>) -> (r: Vec<WorldAction>)
        requires
            old(self).wf(),
            forall|j: int|
                0 <= j < actions@.len() ==> old(self).entities_view().contains_key(
                    (#[trigger] actions@[j]).0,
                ) || actions@[j].1 is Move || actions@[j].1 is UseWarpTile,
        ensures
            final(self).wf(),
            final(self).same_terrain(old(self)),
            final(self).next_id() == old(self).next_id(),
            (final(self).entities_view(), warp_ids(r@)) == old(self).resolve_all(
                old(self).entities_view(),
                actions@,
            ),
    {
        let ghost pre = *old(self);
        let mut world_actions: Vec<WorldAction> = Vec::new();
        let mut i: usize = 0;
        proof {
            assert(actions@.take(0) =~= Seq::<(u32, Action)>::empty());
            assert(warp_ids(world_actions@) =~= Seq::<u32>::empty());
        }
        while i < actions.len()
            invariant
                self.wf(),
                self.same_terrain(&pre),
                self.next_id() == pre.next_id(),
                pre.wf(),
                i <= actions@.len(),
                forall|j: int|
                    0 <= j < actions@.len() ==> pre.entities_view().contains_key(
                        (#[trigger] actions@[j]).0,
                    ) || actions@[j].1 is Move || actions@[j].1 is UseWarpTile,
                (self.entities_view(), warp_ids(world_actions@)) == pre.resolve_all(
                    pre.entities_view(),
                    actions@.take(i as int),
                ),
            decreases actions@.len() - i,
        {
            let (id, action) = actions[i];
            let ghost before = self.entities_view();
            let ghost wa_before = world_actions@;
            proof {
                assert(actions@.take(i + 1).drop_last() =~= actions@.take(i as int));
                assert(actions@.take(i + 1).last() == (id, action));
                pre.lemma_resolve_all_dom(pre.entities_view(), actions@.take(i as int));
                assert(actions@[i as int] == (id, action));
            }
            match action {
                Action::Move(direction) => {
                    let entity: &Entity = match self.entities.get(&id) {
                        Some(e) => e,
                        None => {
                            proof {
                                assert(warp_ids(world_actions@) == warp_ids(wa_before));
                            }
                            i += 1;
                            continue;
                        },
                    };
                    let new_pos: Vec2i = entity.pos + direction.to_vec2();
                    if 0 <= new_pos.x && new_pos.x < self.width as i32 && 0 <= new_pos.y
                        && new_pos.y < self.height as i32 {
                        proof {
                            lemma_cell_index(
                                self.width as int,
                                self.height as int,
                                new_pos.x as int,
                                new_pos.y as int,
                            );
                        }
                        if self.is_passable(new_pos.x as u16, new_pos.y as u16) {
                            if let Some(entity) = map_get_mut(&mut self.entities, id) {
                                entity.pos = Vec2u::try_from(new_pos).unwrap();
                            }
                        }
                    }
                },
                Action::UseWarpTile => {
                    let entity: &Entity = match self.entities.get(&id) {
                        Some(e) => e,
                        None => {
                            i += 1;
                            continue;
                        },
                    };
                    if self.warps.contains_key(&pos_key(entity.pos.x, entity.pos.y)) {
                        world_actions.push(WorldAction::EntityUseWarp { entity_id: id });
                    }
                },
                _ => {},
            }
            map_get_mut(&mut self.entities, id).unwrap().data.update(action);
            proof {
                match pre.resolve_one(before, id, action).1 {
                    Some(w) => {
                        assert(warp_ids(world_actions@) =~= warp_ids(wa_before).push(w));
                    },
                    None => {
                        assert(warp_ids(world_actions@) =~= warp_ids(wa_before));
                    },
                }
                assert(self.entities_view() =~= pre.resolve_one(before, id, action).0);
            }
            i += 1;
        }
        proof {
            assert(actions@.take(actions@.len() as int) =~= actions@);
        }
        world_actions
    }
}

/// What an update does with an entity's position, for each action: an
/// entity that moves right, left, up or down ends on the cell one column to
/// the right, one column to the left, one row up or one row down if that
/// cell lies on the map and is passable, and otherwise stays where it was;
/// an entity that does anything else stays where it was. The same holds of
/// a listed action carried out by `resolve_actions` (see `acted`).
pub proof fn lemma_update_steps_one_cell(m: GameMap, e: Entity, action: Action)
    ensures
        ({
            let x = e.pos.x as int;
            let y = e.pos.y as int;
            let (tx, ty): (int, int) = match action {
                Action::Move(Direction::Right) => (x + 1, y),
                Action::Move(Direction::Left) => (x - 1, y),
                Action::Move(Direction::Up) => (x, y - 1),
                Action::Move(Direction::Down) => (x, y + 1),
                _ => (x, y),
            };
            let p = m.acted(e, action).pos;
            &&& (0 <= tx < m.spec_width() && 0 <= ty < m.spec_height() && m.tiles_view()[ty
                * m.spec_width() + tx].passable()) ==> p.x == tx && p.y == ty
            &&& !(0 <= tx < m.spec_width() && 0 <= ty < m.spec_height() && m.tiles_view()[ty
                * m.spec_width() + tx].passable()) ==> p == e.pos
        }),
        m.moved(e) == m.acted(e, e.data.living().action),
{
}

/// An update moves an entity at most one step, and only onto a passable cell
/// of the map; it never changes the entity's id, kind, health or facing.
pub proof fn lemma_moved_lands_on_passable(m: GameMap, e: Entity)
    ensures
        m.moved(e).pos == e.pos || (m.in_bounds(m.moved(e).pos.x as int, m.moved(e).pos.y as int)
            && m.tile(m.moved(e).pos.x as int, m.moved(e).pos.y as int).passable()),
        m.moved(e).id == e.id,
        (m.moved(e).data is Player) == (e.data is Player),
        m.moved(e).data.living().health == e.data.living().health,
        m.moved(e).data.living().direction == e.data.living().direction,
{
}

/// No step of a sequence of maps changes the size, so every map of it has
/// the size of the first: a map keeps the size it was made with through any
/// sequence of calls, since each mutating method keeps width and height.
pub proof fn lemma_size_kept(trace: Seq<GameMap>)
    requires
        forall|i: int|
            0 < i < trace.len() ==> (#[trigger] trace[i]).spec_width() == trace[i - 1].spec_width()
                && trace[i].spec_height() == trace[i - 1].spec_height(),
    ensures
        forall|i: int|
            0 <= i < trace.len() ==> (#[trigger] trace[i]).spec_width() == trace[0].spec_width()
                && trace[i].spec_height() == trace[0].spec_height(),
    decreases trace.len(),
{
    if trace.len() > 1 {
        let front = trace.drop_last();
        assert forall|i: int| 0 < i < front.len() implies (#[trigger] front[i]).spec_width()
            == front[i - 1].spec_width() && front[i].spec_height() == front[i - 1].spec_height() by {
            assert(front[i] == trace[i] && front[i - 1] == trace[i - 1]);
        }
        lemma_size_kept(front);
        assert forall|i: int| 0 <= i < trace.len() implies (#[trigger] trace[i]).spec_width()
            == trace[0].spec_width() && trace[i].spec_height() == trace[0].spec_height() by {
            if i < front.len() {
                assert(front[i] == trace[i] && front[0] == trace[0]);
            } else {
                assert(trace[i - 1] == front[i - 1]);
                assert(front[0] == trace[0]);
            }
        }
    }
}

/// Whether step `i` of a sequence of maps hands out an entity id: the next
/// id goes up by one, as `add_entity` does, which returns the id the map
/// had as its next one.
pub open spec fn hands_out_at(trace: Seq<GameMap>, i: int) -> bool {
    trace[i + 1].next_id() == trace[i].next_id() + 1
}

/// How many of the first `n` steps of a sequence of maps hand out an id.
pub open spec fn handed_out(trace: Seq<GameMap>, n: int) -> int
    decreases n,
{
    if n <= 0 {
        0
    } else {
        handed_out(trace, n - 1) + if hands_out_at(trace, n - 1) {
            1int
        } else {
            0int
        }
    }
}

/// Entity ids are handed out in order and never twice. Along a sequence of
/// maps in which each step either keeps the next entity id (every method but
/// `add_entity`, `remove_entity` included) or hands out the next id and
/// counts it up by one (`add_entity`): the next id is the first map's plus
/// the number of ids handed out so far, so a map made by `new` hands out 0,
/// 1, 2, ... in turn; two steps that hand out ids hand out different ones,
/// the later one larger; and every later map's next id lies above each id
/// handed out before, so no later step hands it out again.
pub proof fn lemma_ids_never_reused(trace: Seq<GameMap>)
    requires
        forall|i: int|
            0 <= i < trace.len() - 1 ==> trace[i + 1].next_id() == trace[i].next_id()
                || #[trigger] hands_out_at(trace, i),
    ensures
        forall|i: int|
            0 <= i < trace.len() ==> (#[trigger] trace[i]).next_id() == trace[0].next_id()
                + handed_out(trace, i),
        forall|i: int, j: int|
            0 <= i < j < trace.len() - 1 && #[trigger] hands_out_at(trace, i) && #[trigger] hands_out_at(
                trace,
                j,
            ) ==> trace[i].next_id() < trace[j].next_id(),
        forall|i: int, k: int|
            0 <= i < k < trace.len() && #[trigger] hands_out_at(trace, i) ==> trace[i].next_id()
                < (#[trigger] trace[k]).next_id(),
    decreases trace.len(),
{
    if trace.len() > 1 {
        let front = trace.drop_last();
        assert forall|i: int| 0 <= i < front.len() - 1 implies front[i + 1].next_id() == front[i].next_id()
            || #[trigger] hands_out_at(front, i) by {
            assert(front[i] == trace[i] && front[i + 1] == trace[i + 1]);
            assert(hands_out_at(front, i) == hands_out_at(trace, i));
        }
        lemma_ids_never_reused(front);
        assert forall|n: int| 0 <= n < front.len() implies handed_out(front, n) == handed_out(
            trace,
            n,
        ) by {
            lemma_handed_out_prefix(front, trace, n);
        }
        let last = trace.len() - 1;
        assert(trace[last].next_id() == trace[last - 1].next_id() || hands_out_at(trace, last - 1));
        assert(front[last - 1] == trace[last - 1]);
        assert(front[0] == trace[0]);
        assert(trace[last - 1].next_id() == trace[0].next_id() + handed_out(trace, last - 1));
        assert forall|i: int| 0 <= i < trace.len() implies (#[trigger] trace[i]).next_id()
            == trace[0].next_id() + handed_out(trace, i) by {
            if i < last {
                assert(front[i] == trace[i]);
            }
        }
        assert forall|i: int, j: int|
            0 <= i < j < trace.len() - 1 && #[trigger] hands_out_at(trace, i) && #[trigger] hands_out_at(
                trace,
                j,
            ) implies trace[i].next_id() < trace[j].next_id() by {
            assert(front[i] == trace[i] && front[i + 1] == trace[i + 1]);
            assert(front[j] == trace[j]);
            assert(hands_out_at(front, i));
            assert(trace[j] == front[j]);
            assert(trace[i].next_id() < front[j].next_id());
        }
        assert forall|i: int, k: int|
            0 <= i < k < trace.len() && #[trigger] hands_out_at(trace, i) implies trace[i].next_id()
            < (#[trigger] trace[k]).next_id() by {
            if k < last {
                assert(front[i] == trace[i] && front[i + 1] == trace[i + 1]);
                assert(front[k] == trace[k]);
                assert(hands_out_at(front, i));
            } else if i + 1 < k {
                assert(front[i] == trace[i] && front[i + 1] == trace[i + 1]);
                assert(hands_out_at(front, i));
                assert(front[last - 1] == trace[last - 1]);
                assert(trace[i].next_id() < front[last - 1].next_id());
            }
        }
    }
}

/// Counting the ids handed out in the first `n` steps looks only at those
/// steps.
proof fn lemma_handed_out_prefix(a: Seq<GameMap>, b: Seq<GameMap>, n: int)
    requires
        0 <= n < a.len() <= b.len(),
        forall|i: int| 0 <= i < a.len() ==> a[i] == b[i],
    ensures
        handed_out(a, n) == handed_out(b, n),
    decreases n,
{
    if n > 0 {
        lemma_handed_out_prefix(a, b, n - 1);
        assert(a[n - 1] == b[n - 1] && a[n] == b[n]);
    }
}

/// After one update every entity is idle, so a second update leaves it where
/// it is.
pub proof fn lemma_moved_twice(m: GameMap, e: Entity)
    ensures
        m.moved(m.moved(e)) == m.moved(e),
{
}

} // verus!
