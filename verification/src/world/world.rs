use vstd::prelude::*;

use std::collections::HashMap;

use crate::util::hash::collect_keys;
use crate::util::hash::map_get_mut;
use crate::util::vec2::Vec2u;
use crate::world::entity::Action;
use crate::world::entity::Entity;
use crate::world::game_map::GameMap;
use crate::world::game_map::key_of;
use crate::world::game_map::warp_ids;
use crate::world::generation::world_gen::Level;

verus! {

/// Where a warp leads: a map and a position on it.
#[derive(Debug, Clone, Copy, PartialEq, Eq)]
pub struct TargetInfo {
    pub map_id: u32,
    pub pos: Vec2u,
}

/// What a map asks of the world after an update.
#[derive(Debug, Clone, Copy, PartialEq, Eq)]
pub enum WorldAction {
    /// The entity stands on a warp tile and wants to use it.
    EntityUseWarp { entity_id: u32 },
}

/// What happened in the world during an update.
#[derive(Debug, Clone, Copy, PartialEq, Eq)]
pub enum WorldEvent {
    /// An entity left a map through a warp and got a new id on the target map.
    EntiyMovedToMap { old_entity_id: u32, new_entity_id: u32, target_map_id: u32 },
}


broadcast use vstd::std_specs::hash::group_hash_axioms;

/// What a world's maps amount to apart from their terrain: for each map id,
/// the entities by id and the id the map hands out next.
pub type Population = Map<u32, (Map<u32, Entity>, u32)>;

/// The population of a collection of maps.
pub open spec fn population(maps: Map<u32, GameMap>) -> Population {
    maps.map_values(|m: GameMap| (m.entities_view(), m.next_id()))
}

/// Replacing one map changes the population at that map id only.
pub broadcast proof fn lemma_population_insert(maps: Map<u32, GameMap>, k: u32, m: GameMap)
    ensures
        #[trigger] population(maps.insert(k, m)) == population(maps).insert(
            k,
            (m.entities_view(), m.next_id()),
        ),
{
    assert(population(maps.insert(k, m)) =~= population(maps).insert(
        k,
        (m.entities_view(), m.next_id()),
    ));
}

/// Every map of `after` has the terrain that the same map has in `before`,
/// and both hold the same map ids.
pub open spec fn same_terrains(before: Map<u32, GameMap>, after: Map<u32, GameMap>) -> bool {
    &&& after.dom() == before.dom()
    &&& forall|k: u32| #[trigger]
        before.contains_key(k) ==> after[k].same_terrain(&before[k])
}

/// The entity `id` of map `src` moves through the warp `target`: it leaves
/// `src` and arrives at the target position on the target map with the id
/// that map hands out next. The result is the new population and that id,
/// or the message of the first check that fails: an unknown source map, an
/// entity not on it, an unknown target map (the entity has then already
/// left its map).
pub open spec fn transfer_step(p: Population, src: u32, id: u32, target: TargetInfo) -> (
    Population,
    Result<u32, Seq<char>>,
) {
    if !p.contains_key(src) {
        (p, Err("Source map not found"@))
    } else if !p[src].0.contains_key(id) {
        (p, Err("Entity not found"@))
    } else {
        let e = p[src].0[id];
        let removed = p.insert(src, (p[src].0.remove(id), p[src].1));
        if !removed.contains_key(target.map_id) {
            (removed, Err("Target map not found"@))
        } else {
            let dst = removed[target.map_id];
            let new_id = dst.1;
            (
                removed.insert(
                    target.map_id,
                    (
                        dst.0.insert(new_id, Entity { id: new_id, pos: target.pos, data: e.data }),
                        (new_id + 1) as u32,
                    ),
                ),
                Ok(new_id),
            )
        }
    }
}

/// The entity `id` of map `src` uses the warp it stands on, as
/// `transfer_step` describes; before that, an unknown map, an entity not on
/// it and a cell without a warp each fail with their own message.
pub open spec fn warp_step(p: Population, warps: Map<u32, TargetInfo>, src: u32, id: u32) -> (
    Population,
    Result<WorldEvent, Seq<char>>,
) {
    if !p.contains_key(src) {
        (p, Err("No map info"@))
    } else if !p[src].0.contains_key(id) {
        (p, Err("No entity"@))
    } else if !warps.contains_key(key_of(p[src].0[id].pos)) {
        (p, Err("No target info"@))
    } else {
        let target = warps[key_of(p[src].0[id].pos)];
        let (q, r) = transfer_step(p, src, id, target);
        match r {
            Ok(new_id) => (
                q,
                Ok(
                    WorldEvent::EntiyMovedToMap {
                        old_entity_id: id,
                        new_entity_id: new_id,
                        target_map_id: target.map_id,
                    },
                ),
            ),
            Err(msg) => (q, Err(msg)),
        }
    }
}

/// The entities `ids` of map `src` use their warps one after the other,
/// until one of them fails. The result is the population afterwards, the
/// events of the warps that succeeded, and the message of the failure.
pub open spec fn warp_all(p: Population, warps: Map<u32, TargetInfo>, src: u32, ids: Seq<u32>) -> (
    Population,
    Seq<WorldEvent>,
    Option<Seq<char>>,
)
    decreases ids.len(),
{
    if ids.len() == 0 {
        (p, Seq::empty(), None)
    } else {
        let (q, events, failure) = warp_all(p, warps, src, ids.drop_last());
        if failure is Some {
            (q, events, failure)
        } else {
            let (q2, r) = warp_step(q, warps, src, ids.last());
            match r {
                Ok(ev) => (q2, events.push(ev), None),
                Err(msg) => (q2, events, Some(msg)),
            }
        }
    }
}

/// Replacing a map by one with the same terrain keeps all terrains.
pub proof fn lemma_same_terrains_insert(maps: Map<u32, GameMap>, k: u32, m: GameMap)
    requires
        maps.contains_key(k),
        m.same_terrain(&maps[k]),
    ensures
        same_terrains(maps, maps.insert(k, m)),
{
    assert(maps.insert(k, m).dom() =~= maps.dom());
}

/// Keeping terrains is transitive.
pub proof fn lemma_same_terrains_trans(
    a: Map<u32, GameMap>,
    b: Map<u32, GameMap>,
    c: Map<u32, GameMap>,
)
    requires
        same_terrains(a, b),
        same_terrains(b, c),
    ensures
        same_terrains(a, c),
{
    assert forall|k: u32| #[trigger] a.contains_key(k) implies c[k].same_terrain(&a[k]) by {
        assert(b.contains_key(k));
    }
}

/// If the entity `id` of map `src` stands on a warp whose target map exists,
/// that map can still hand out an id.
pub open spec fn warp_target_has_room(maps: Map<u32, GameMap>, src: u32, id: u32) -> bool {
    maps.contains_key(src) && maps[src].entities_view().contains_key(id) && maps[src].warps_view().contains_key(
        key_of(maps[src].entities_view()[id].pos),
    ) && maps.contains_key(maps[src].warps_view()[key_of(maps[src].entities_view()[id].pos)].map_id)
        ==> maps[maps[src].warps_view()[key_of(
        maps[src].entities_view()[id].pos,
    )].map_id].next_id() < u32::MAX
}

/// The ids of the entities on a map that want to use a warp and stand on one.
pub open spec fn warpers(m: GameMap) -> Set<u32> {
    Set::new(|id: u32| m.wants_warp(id))
}

/// Every map that a warp of map `src` leads to can hand out an id to each
/// entity of `src` that is about to use a warp.
pub open spec fn room_for_warps(maps: Map<u32, GameMap>, src: u32) -> bool {
    maps.contains_key(src) ==> forall|key: u32| #[trigger]
        maps[src].warps_view().contains_key(key) && maps.contains_key(
            maps[src].warps_view()[key].map_id,
        ) ==> maps[maps[src].warps_view()[key].map_id].next_id() + warpers(maps[src]).len()
            <= u32::MAX
}

/// The population once map `src` has been updated on its own (see
/// `GameMap::update`), before any entity used a warp.
pub open spec fn after_map_update(maps: Map<u32, GameMap>, src: u32) -> Population {
    population(maps).insert(
        src,
        (
            maps[src].entities_view().map_values(|e: Entity| maps[src].moved(e)),
            maps[src].next_id(),
        ),
    )
}

/// What updating map `src` of `before` does, given the order in which the
/// map hands out its entities: the map is updated, then the entities in
/// `order` (those that want to use a warp and stand on one) use their
/// warps one after the other, as `warp_all` describes; the result is the
/// events, or the message of the first failure.
pub open spec fn map_update_outcome(
    before: Map<u32, GameMap>,
    after: Map<u32, GameMap>,
    src: u32,
    order: Seq<u32>,
    r: Result<Vec<WorldEvent>, String>,
) -> bool {
    &&& order.no_duplicates()
    &&& order.to_set() == warpers(before[src])
    &&& {
        let (p, events, failure) = warp_all(
            after_map_update(before, src),
            before[src].warps_view(),
            src,
            order,
        );
        &&& population(after) == p
        &&& match r {
            Ok(evs) => failure is None && evs@ == events,
            Err(msg) => failure == Some(msg@),
        }
    }
}

/// One warp keeps the map ids and raises the next id of at most one map,
/// by one.
pub proof fn lemma_warp_step_next_ids(p: Population, warps: Map<u32, TargetInfo>, src: u32, id: u32)
    ensures
        warp_step(p, warps, src, id).0.dom() == p.dom(),
        forall|k: u32| #[trigger]
            p.contains_key(k) ==> warp_step(p, warps, src, id).0[k].1 <= p[k].1 + 1,
{
    let q = warp_step(p, warps, src, id).0;
    assert(q.dom() =~= p.dom());
}

/// Once a warp has failed, the later ones are not tried: the outcome of the
/// whole sequence is that of the prefix that ended with the failure.
pub proof fn lemma_warp_all_stops(
    p: Population,
    warps: Map<u32, TargetInfo>,
    src: u32,
    ids: Seq<u32>,
    j: int,
)
    requires
        0 <= j <= ids.len(),
        warp_all(p, warps, src, ids.take(j)).2 is Some,
    ensures
        warp_all(p, warps, src, ids) == warp_all(p, warps, src, ids.take(j)),
    decreases ids.len(),
{
    if ids.len() == j {
        assert(ids.take(j) =~= ids);
    } else {
        assert(ids.drop_last().take(j) =~= ids.take(j));
        lemma_warp_all_stops(p, warps, src, ids.drop_last(), j);
    }
}

/// Every entity id on a map is below the id that the map hands out next.
pub open spec fn ids_below_next(p: Population) -> bool {
    forall|k: u32, id: u32|
        p.contains_key(k) && #[trigger] p[k].0.contains_key(id) ==> id < p[k].1
}

/// Every entity of the collection is idle.
pub open spec fn idle_map(ents: Map<u32, Entity>) -> bool {
    forall|id: u32| #[trigger]
        ents.contains_key(id) ==> ents[id].data.living().action == Action::Idle
}

/// From `p` to `q`, every map but `src` keeps its entities, and every entity
/// that arrived on it is idle.
pub open spec fn only_idle_arrivals(p: Population, q: Population, src: u32) -> bool {
    &&& q.dom() == p.dom()
    &&& forall|k: u32, id: u32|
        p.contains_key(k) && k != src && #[trigger] p[k].0.contains_key(id) ==> q[k].0.contains_key(
            id,
        ) && q[k].0[id] == p[k].0[id]
    &&& forall|k: u32, id: u32|
        p.contains_key(k) && k != src && #[trigger] q[k].0.contains_key(id) && !p[k].0.contains_key(
            id,
        ) ==> q[k].0[id].data.living().action == Action::Idle
}

/// Every map that one of the warps leads to can hand out `n` more ids.
pub open spec fn warp_room(p: Population, warps: Map<u32, TargetInfo>, n: int) -> bool {
    forall|key: u32| #[trigger]
        warps.contains_key(key) && p.contains_key(warps[key].map_id) ==> p[warps[key].map_id].1 + n
            <= u32::MAX
}

/// Arrivals are idle, and ids stay below the next ids, over one warp of an
/// idle entity.
pub proof fn lemma_warp_step_idle(p: Population, warps: Map<u32, TargetInfo>, src: u32, id: u32)
    requires
        ids_below_next(p),
        p.contains_key(src) ==> idle_map(p[src].0),
        warp_room(p, warps, 1),
    ensures
        ({
            let q = warp_step(p, warps, src, id).0;
            &&& only_idle_arrivals(p, q, src)
            &&& ids_below_next(q)
            &&& q.contains_key(src) ==> idle_map(q[src].0)
            &&& forall|k: u32| #[trigger] p.contains_key(k) ==> p[k].1 <= q[k].1 <= p[k].1 + 1
        }),
{
    let q = warp_step(p, warps, src, id).0;
    assert(q.dom() =~= p.dom());
    if p.contains_key(src) && p[src].0.contains_key(id) && warps.contains_key(
        key_of(p[src].0[id].pos),
    ) {
        let target = warps[key_of(p[src].0[id].pos)];
        let removed = p.insert(src, (p[src].0.remove(id), p[src].1));
        if removed.contains_key(target.map_id) {
            assert(p[target.map_id].1 + 1 <= u32::MAX);
            let new_id = removed[target.map_id].1;
            assert(!removed[target.map_id].0.contains_key(new_id));
            assert(idle_map(p[src].0));
            assert(p[src].0[id].data.living().action == Action::Idle);
        }
    }
}

/// Arrivals are idle, ids stay below the next ids, and next ids grow by at
/// most one per entity, when idle entities of `src` use their warps.
pub proof fn lemma_warp_all_idle(p: Population, warps: Map<u32, TargetInfo>, src: u32, ids: Seq<u32>)
    requires
        ids_below_next(p),
        p.contains_key(src) ==> idle_map(p[src].0),
        warp_room(p, warps, ids.len() as int),
    ensures
        ({
            let q = warp_all(p, warps, src, ids).0;
            &&& only_idle_arrivals(p, q, src)
            &&& ids_below_next(q)
            &&& q.contains_key(src) ==> idle_map(q[src].0)
            &&& forall|k: u32| #[trigger]
                p.contains_key(k) ==> p[k].1 <= q[k].1 <= p[k].1 + ids.len()
        }),
    decreases ids.len(),
{
    if ids.len() == 0 {
        assert(warp_all(p, warps, src, ids).0 =~= p);
    } else {
        let q1 = warp_all(p, warps, src, ids.drop_last()).0;
        lemma_warp_all_idle(p, warps, src, ids.drop_last());
        let q = warp_all(p, warps, src, ids).0;
        if warp_all(p, warps, src, ids.drop_last()).2 is None {
            assert forall|key: u32| #[trigger]
                warps.contains_key(key) && q1.contains_key(warps[key].map_id) implies q1[warps[key].map_id].1
                + 1 <= u32::MAX by {
                assert(p.contains_key(warps[key].map_id));
            }
            lemma_warp_step_idle(q1, warps, src, ids.last());
            assert(q == warp_step(q1, warps, src, ids.last()).0);
            assert forall|k: u32, id: u32|
                p.contains_key(k) && k != src && #[trigger] q[k].0.contains_key(id)
                    && !p[k].0.contains_key(id) implies q[k].0[id].data.living().action
                == Action::Idle by {
                if q1[k].0.contains_key(id) {
                    assert(q1.contains_key(k));
                }
            }
            assert forall|k: u32, id: u32|
                p.contains_key(k) && k != src && #[trigger] p[k].0.contains_key(
                    id,
                ) implies q[k].0.contains_key(id) && q[k].0[id] == p[k].0[id] by {
                assert(q1.contains_key(k));
                assert(q1[k].0.contains_key(id));
            }
            assert forall|k: u32| #[trigger]
                p.contains_key(k) implies p[k].1 <= q[k].1 <= p[k].1 + ids.len() by {
                assert(q1.contains_key(k));
            }
        }
    }
}

/// The number of warps that the maps in `order` can ask for at most: for
/// each, the entities on it that want to use a warp and stand on one.
pub open spec fn warp_budget(maps: Map<u32, GameMap>, order: Seq<u32>) -> int
    decreases order.len(),
{
    if order.len() == 0 {
        0
    } else {
        warp_budget(maps, order.drop_last()) + warpers(maps[order.last()]).len()
    }
}

/// A budget for a prefix is at most the budget for the whole sequence.
pub proof fn lemma_warp_budget_prefix(maps: Map<u32, GameMap>, order: Seq<u32>, j: int)
    requires
        0 <= j <= order.len(),
    ensures
        warp_budget(maps, order.take(j)) <= warp_budget(maps, order),
    decreases order.len(),
{
    if j == order.len() {
        assert(order.take(j) =~= order);
    } else {
        assert(order.drop_last().take(j) =~= order.take(j));
        lemma_warp_budget_prefix(maps, order.drop_last(), j);
    }
}

/// The budget of warps is at most `count` per map when no map in `order`
/// holds more than `count` entities.
pub proof fn lemma_warp_budget_bound(maps: Map<u32, GameMap>, order: Seq<u32>, count: int)
    requires
        count >= 0,
        forall|j: int|
            0 <= j < order.len() ==> maps.contains_key(#[trigger] order[j]) && maps[order[j]].wf()
                && maps[order[j]].entities_view().len() <= count,
    ensures
        warp_budget(maps, order) <= order.len() * count,
    decreases order.len(),
{
    if order.len() > 0 {
        let rest = order.drop_last();
        assert forall|j: int| 0 <= j < rest.len() implies maps.contains_key(#[trigger] rest[j])
            && maps[rest[j]].wf() && maps[rest[j]].entities_view().len() <= count by {
            assert(rest[j] == order[j]);
        }
        lemma_warp_budget_bound(maps, rest, count);
        let m = maps[order.last()];
        assert(maps.contains_key(order[order.len() - 1]));
        assert(warpers(m).subset_of(m.entities_view().dom()));
        vstd::set_lib::lemma_len_subset(warpers(m), m.entities_view().dom());
        assert(rest.len() * count + count == order.len() * count) by (nonlinear_arith)
            requires
                rest.len() + 1 == order.len(),
        ;
    }
}

/// `n` is the largest next entity id of the maps (0 when there are none).
pub open spec fn is_largest_next_id(maps: Map<u32, GameMap>, n: int) -> bool {
    &&& forall|k: u32| #[trigger] maps.contains_key(k) ==> maps[k].next_id() <= n
    &&& (n == 0 || exists|k: u32| #[trigger] maps.contains_key(k) && maps[k].next_id() == n)
}

/// `n` is the largest number of entities on one map (0 when there are no
/// maps).
pub open spec fn is_largest_entity_count(maps: Map<u32, GameMap>, n: int) -> bool {
    &&& forall|k: u32| #[trigger] maps.contains_key(k) ==> maps[k].entities_view().len() <= n
    &&& (n == 0 || exists|k: u32|
        #[trigger] maps.contains_key(k) && maps[k].entities_view().len() == n)
}

/// The largest next entity id of the maps.
pub open spec fn largest_next_id(maps: Map<u32, GameMap>) -> int {
    choose|n: int| is_largest_next_id(maps, n)
}

/// The largest number of entities on one map.
pub open spec fn largest_entity_count(maps: Map<u32, GameMap>) -> int {
    choose|n: int| is_largest_entity_count(maps, n)
}

/// The largest next id and the largest entity count are unique.
pub proof fn lemma_largest_unique(maps: Map<u32, GameMap>, a: int, b: int)
    ensures
        is_largest_next_id(maps, a) && is_largest_next_id(maps, b) ==> a == b,
        is_largest_entity_count(maps, a) && is_largest_entity_count(maps, b) ==> a == b,
{
    if is_largest_next_id(maps, a) && is_largest_next_id(maps, b) {
        if a != 0 {
            let k = choose|k: u32| #[trigger] maps.contains_key(k) && maps[k].next_id() == a;
            assert(maps[k].next_id() <= b);
        }
        if b != 0 {
            let k = choose|k: u32| #[trigger] maps.contains_key(k) && maps[k].next_id() == b;
            assert(maps[k].next_id() <= a);
        }
    }
    if is_largest_entity_count(maps, a) && is_largest_entity_count(maps, b) {
        if a != 0 {
            let k = choose|k: u32|
                #[trigger] maps.contains_key(k) && maps[k].entities_view().len() == a;
            assert(maps[k].entities_view().len() <= b);
        }
        if b != 0 {
            let k = choose|k: u32|
                #[trigger] maps.contains_key(k) && maps[k].entities_view().len() == b;
            assert(maps[k].entities_view().len() <= a);
        }
    }
}

/// Every map can hand out an id to every entity of the world that may use a
/// warp during one update of all maps (whatever the order of the maps).
pub open spec fn room_for_all_warps(maps: Map<u32, GameMap>) -> bool {
    forall|order: Seq<u32>, k: u32|
        #![trigger warp_budget(maps, order), maps[k]]
        order.no_duplicates() && order.to_set() == maps.dom() && maps.contains_key(k)
            ==> maps[k].next_id() + warp_budget(maps, order) <= u32::MAX
}

/// Map `src` was updated from `before` to `after` with the result `r`, in
/// some order of its entities; see `map_update_outcome`.
pub open spec fn updated_by(
    before: Map<u32, GameMap>,
    after: Map<u32, GameMap>,
    src: u32,
    r: Result<Vec<WorldEvent>, String>,
) -> bool {
    exists|order: Seq<u32>| #[trigger] map_update_outcome(before, after, src, order, r)
}

/// The events of the successful results, in order.
pub open spec fn events_of(results: Seq<Result<Vec<WorldEvent>, String>>) -> Seq<WorldEvent>
    decreases results.len(),
{
    if results.len() == 0 {
        Seq::empty()
    } else {
        events_of(results.drop_last()) + match results.last() {
            Ok(evs) => evs@,
            Err(_) => Seq::empty(),
        }
    }
}

/// What updating all maps does: the maps, enumerated once each in
/// `map_order`, are updated one after the other (see `map_update_outcome`),
/// passing through `states`, with `results`, until one fails. The result
/// is all events in order, or the message of the failure.
pub open spec fn all_maps_update_outcome(
    before: Map<u32, GameMap>,
    after: Map<u32, GameMap>,
    map_order: Seq<u32>,
    states: Seq<Map<u32, GameMap>>,
    results: Seq<Result<Vec<WorldEvent>, String>>,
    r: Result<Vec<WorldEvent>, String>,
) -> bool {
    &&& map_order.no_duplicates()
    &&& map_order.to_set() == before.dom()
    &&& states.len() == results.len() + 1
    &&& results.len() <= map_order.len()
    &&& states[0] == before
    &&& states.last() == after
    &&& forall|j: int|
        0 <= j < results.len() ==> #[trigger] updated_by(
            states[j],
            states[j + 1],
            map_order[j],
            results[j],
        )
    &&& forall|j: int| 0 <= j < results.len() - 1 ==> #[trigger] results[j] is Ok
    &&& match r {
        Ok(evs) => {
            &&& results.len() == map_order.len()
            &&& (results.len() > 0 ==> results.last() is Ok)
            &&& evs@ == events_of(results)
        },
        Err(msg) => {
            &&& results.len() > 0
            &&& results.last() matches Err(m) && m@ == msg@
        },
    }
}

/// Moving an entity through a warp to another map and back through a second
/// warp restores the other map's entities; the entity returns to its own map
/// with the next id of that map, at the second warp's target, unchanged in
/// kind and state.
pub proof fn lemma_transfer_round_trip(
    p: Population,
    a: u32,
    b: u32,
    id: u32,
    to_b: TargetInfo,
    back: TargetInfo,
)
    requires
        a != b,
        to_b.map_id == b,
        back.map_id == a,
        p.contains_key(a),
        p.contains_key(b),
        p[a].0.contains_key(id),
        ids_below_next(p),
        p[a].1 < u32::MAX,
        p[b].1 < u32::MAX,
    ensures
        ({
            let (p1, r1) = transfer_step(p, a, id, to_b);
            let (p2, r2) = transfer_step(p1, b, p[b].1, back);
            &&& r1 == Ok::<u32, Seq<char>>(p[b].1)
            &&& r2 == Ok::<u32, Seq<char>>(p[a].1)
            &&& p2[b].0 == p[b].0
            &&& p2[b].1 == p[b].1 + 1
            &&& p2[a].1 == p[a].1 + 1
            &&& p2[a].0 == p[a].0.remove(id).insert(
                p[a].1,
                Entity { id: p[a].1, pos: back.pos, data: p[a].0[id].data },
            )
            &&& p2.dom() == p.dom()
        }),
{
    let (p1, r1) = transfer_step(p, a, id, to_b);
    let (p2, r2) = transfer_step(p1, b, p[b].1, back);
    assert(!p[b].0.contains_key(p[b].1));
    assert(p2[b].0 =~= p[b].0);
    assert(p2.dom() =~= p.dom());
}

/// Warps of idle entities that each stand on a warp leading to an existing
/// map all succeed, and the other entities of the map stay where they are.
pub proof fn lemma_warp_all_succeeds(p: Population, warps: Map<u32, TargetInfo>, src: u32, ids: Seq<u32>)
    requires
        p.contains_key(src),
        ids.no_duplicates(),
        forall|j: int|
            0 <= j < ids.len() ==> #[trigger] p[src].0.contains_key(ids[j]) && warps.contains_key(
                key_of(p[src].0[ids[j]].pos),
            ) && p.contains_key(warps[key_of(p[src].0[ids[j]].pos)].map_id),
        ids_below_next(p),
        idle_map(p[src].0),
        warp_room(p, warps, ids.len() as int),
    ensures
        warp_all(p, warps, src, ids).2 is None,
        forall|e: u32|
            p[src].0.contains_key(e) && !ids.contains(e) ==> #[trigger] warp_all(
                p,
                warps,
                src,
                ids,
            ).0[src].0.contains_key(e) && warp_all(p, warps, src, ids).0[src].0[e] == p[src].0[e],
    decreases ids.len(),
{
    if ids.len() > 0 {
        let rest = ids.drop_last();
        let last = ids.last();
        assert forall|j: int| 0 <= j < rest.len() implies #[trigger] p[src].0.contains_key(
            rest[j],
        ) && warps.contains_key(key_of(p[src].0[rest[j]].pos)) && p.contains_key(
            warps[key_of(p[src].0[rest[j]].pos)].map_id,
        ) by {
            assert(rest[j] == ids[j]);
            assert(p[src].0.contains_key(ids[j]));
        }
        lemma_warp_all_succeeds(p, warps, src, rest);
        lemma_warp_all_idle(p, warps, src, rest);
        let q1 = warp_all(p, warps, src, rest).0;
        assert(p[src].0.contains_key(ids[ids.len() - 1]));
        assert(!rest.contains(last)) by {
            if rest.contains(last) {
                let j = choose|j: int| 0 <= j < rest.len() && rest[j] == last;
                assert(ids[j] == ids[ids.len() - 1]);
            }
        }
        assert(q1[src].0.contains_key(last));
        assert(q1.dom() == p.dom());
        let target = warps[key_of(q1[src].0[last].pos)];
        assert(q1.contains_key(target.map_id));
        assert forall|e: u32|
            p[src].0.contains_key(e) && !ids.contains(e) implies #[trigger] warp_all(
            p,
            warps,
            src,
            ids,
        ).0[src].0.contains_key(e) && warp_all(p, warps, src, ids).0[src].0[e] == p[src].0[e] by {
            assert(!rest.contains(e)) by {
                if rest.contains(e) {
                    let j = choose|j: int| 0 <= j < rest.len() && rest[j] == e;
                    assert(ids[j] == e);
                }
            }
            assert(e != last);
            assert(e < p[src].1);
            assert(p[src].1 <= q1[src].1);
        }
    }
}

/// When every warp of map `src` leads to an existing map, updating that map
/// succeeds.
pub proof fn lemma_update_map_succeeds(
    before: Map<u32, GameMap>,
    after: Map<u32, GameMap>,
    src: u32,
    order: Seq<u32>,
    r: Result<Vec<WorldEvent>, String>,
)
    requires
        before.contains_key(src),
        forall|k: u32| #[trigger] before.contains_key(k) ==> before[k].wf(),
        room_for_warps(before, src),
        forall|key: u32| #[trigger]
            before[src].warps_view().contains_key(key) ==> before.contains_key(
                before[src].warps_view()[key].map_id,
            ),
        map_update_outcome(before, after, src, order, r),
    ensures
        r is Ok,
{
    let pu = after_map_update(before, src);
    let warps = before[src].warps_view();
    order.unique_seq_to_set();
    assert(ids_below_next(pu)) by {
        assert forall|k: u32, e: u32| pu.contains_key(k) && #[trigger] pu[k].0.contains_key(
            e,
        ) implies e < pu[k].1 by {
            assert(before.contains_key(k));
        }
    }
    assert forall|j: int| 0 <= j < order.len() implies #[trigger] pu[src].0.contains_key(order[j])
        && warps.contains_key(key_of(pu[src].0[order[j]].pos)) && pu.contains_key(
        warps[key_of(pu[src].0[order[j]].pos)].map_id,
    ) by {
        assert(order.to_set().contains(order[j]));
        assert(before[src].wants_warp(order[j]));
    }
    assert(warp_room(pu, warps, order.len() as int)) by {
        assert forall|key: u32| #[trigger]
            warps.contains_key(key) && pu.contains_key(warps[key].map_id) implies pu[warps[key].map_id].1
            + order.len() <= u32::MAX by {
            assert(before.contains_key(warps[key].map_id));
        }
    }
    lemma_warp_all_succeeds(pu, warps, src, order);
}

/// All maps of the game, by id, and the levels built so far.
pub struct World {
    maps: HashMap<u32, GameMap>,
    map_id_counter: u32,
    level_graphs: Vec<Level>,
}

impl World {
    /// The maps, by id.
    pub closed spec fn maps_view(&self) -> Map<u32, GameMap> {
        self.maps@
    }

    /// The id that the next added map gets.
    pub closed spec fn map_counter(&self) -> u32 {
        self.map_id_counter
    }

    /// The levels, in the order in which they were added.
    pub closed spec fn levels_view(&self) -> Seq<Level> {
        self.level_graphs@
    }

    /// The world's invariant: the map ids are exactly the numbers below the
    /// next id to hand out, and every map is well formed.
    pub open spec fn wf(&self) -> bool {
        &&& forall|k: u32| #[trigger] self.maps_view().contains_key(k) <==> k < self.map_counter()
        &&& forall|k: u32| #[trigger]
            self.maps_view().contains_key(k) ==> self.maps_view()[k].wf()
    }

    /// A world without maps and levels.
    pub fn new() -> (r: Self)
        ensures
            r.wf(),
            r.maps_view() == Map::<u32, GameMap>::empty(),
            r.map_counter() == 0,
            r.levels_view() == Seq::<Level>::empty(),
    {
        World { maps: HashMap::new(), map_id_counter: 0, level_graphs: Vec::new() }
    }

    /// The index that the next added level gets (the number of levels, cut
    /// to 32 bits).
    pub fn get_next_level_idx(&self) -> (r: u32)
        ensures
            r == self.levels_view().len() as u32,
    {
        self.level_graphs.len() as u32
    }

    /// Appends a level.
    pub fn add_level(&mut self, level: Level)
        ensures
            final(self).levels_view() == old(self).levels_view().push(level),
            old(self).levels_view().len() < u32::MAX ==> final(self).levels_view().len() as u32
                == old(self).levels_view().len() as u32 + 1,
            final(self).maps_view() == old(self).maps_view(),
            final(self).map_counter() == old(self).map_counter(),
    {
        self.level_graphs.push(level);
    }

    /// The level added last, if any.
    pub fn get_last_level(&self) -> (r: Option<&Level>)
        ensures
            match r {
                Some(l) => self.levels_view().len() > 0 && *l == self.levels_view().last(),
                None => self.levels_view().len() == 0,
            },
    {
        let n = self.level_graphs.len();
        if n == 0 {
            None
        } else {
            Some(&self.level_graphs[n - 1])
        }
    }

    /// Hands out the next map id.
    fn next_map_id(&mut self) -> (r: u32)
        requires
            old(self).map_counter() < u32::MAX,
        ensures
            r == old(self).map_counter(),
            final(self).map_counter() == old(self).map_counter() + 1,
            final(self).maps_view() == old(self).maps_view(),
            final(self).levels_view() == old(self).levels_view(),
    {
        let id = self.map_id_counter;
        self.map_id_counter += 1;
        id
    }

    /// The id that the next added map gets.
    pub fn get_next_map_id(&self) -> (r: u32)
        ensures
            r == self.map_counter(),
    {
        self.map_id_counter
    }

    /// Adds a map and returns its id: the next map id, which no map had.
    pub fn add_map(&mut self, map: GameMap) -> (r: u32)
        requires
            old(self).wf(),
            map.wf(),
            old(self).map_counter() < u32::MAX,
        ensures
            final(self).wf(),
            r == old(self).map_counter(),
            !old(self).maps_view().contains_key(r),
            final(self).map_counter() == r + 1,
            final(self).maps_view() == old(self).maps_view().insert(r, map),
            final(self).levels_view() == old(self).levels_view(),
    {
        let id = self.next_map_id();
        self.maps.insert(id, map);
        id
    }

    /// The map with this id, if there is one. In a well-formed world there
    /// is one exactly when the id is below the next map id.
    pub fn get_map(&self, id: u32) -> (r: Option<&GameMap>)
        ensures
            self.wf() ==> (r is Some <==> id < self.map_counter()),
            match r {
                Some(m) => self.maps_view().contains_key(id) && *m == self.maps_view()[id],
                None => !self.maps_view().contains_key(id),
            },
    {
        self.maps.get(&id)
    }

    /// A mutable reference to the map with this id, if there is one.
    fn get_map_mut(&mut self, id: u32) -> (r: Option<&mut GameMap>)
        ensures
            r is None <==> !old(self).maps_view().contains_key(id),
            r is None ==> final(self).maps_view() == old(self).maps_view(),
            r is Some ==> *r.unwrap() == old(self).maps_view()[id],
            r is Some ==> final(self).maps_view() == old(self).maps_view().insert(
                id,
                *final(r.unwrap()),
            ),
            final(self).map_counter() == old(self).map_counter(),
            final(self).levels_view() == old(self).levels_view(),
    {
        map_get_mut(&mut self.maps, id)
    }

    /// A mutable reference to an entity on a map, if both exist; what is
    /// written through it becomes that entity, and nothing else changes.
    pub fn get_entity_on_map_mut(&mut self, map_id: u32, entity_id: u32) -> (r: Option<&mut Entity>)
        requires
            old(self).wf(),
        ensures
            r is None <==> !(old(self).maps_view().contains_key(map_id) && old(
                self,
            ).maps_view()[map_id].entities_view().contains_key(entity_id)),
            r is Some ==> *r.unwrap() == old(self).maps_view()[map_id].entities_view()[entity_id],
            final(self).maps_view().dom() == old(self).maps_view().dom(),
            forall|k: u32| #[trigger] old(self).maps_view().contains_key(k) && k != map_id ==> final(self).maps_view()[k] == old(self).maps_view()[k],
            old(self).maps_view().contains_key(map_id) ==> final(self).maps_view()[map_id].same_terrain(&old(self).maps_view()[map_id]),
            r is None ==> population(final(self).maps_view()) == population(old(self).maps_view()),
            r is Some ==> population(final(self).maps_view()) == population(
                old(self).maps_view(),
            ).insert(
                map_id,
                (
                    old(self).maps_view()[map_id].entities_view().insert(
                        entity_id,
                        *final(r.unwrap()),
                    ),
                    old(self).maps_view()[map_id].next_id(),
                ),
            ),
            final(self).wf(),
            final(self).map_counter() == old(self).map_counter(),
            final(self).levels_view() == old(self).levels_view(),
    {
        broadcast use lemma_population_insert;

        match self.get_map_mut(map_id) {
            Some(map) => map.get_entity_mut(entity_id),
            None => None,
        }
    }

    /// Uses the warp under an entity: the entity moves to where the warp
    /// leads, as `warp_step` describes. Returns the target map id and the
    /// entity's new id.
    fn entity_use_warp(&mut self, map_id: u32, entity_id: u32) -> (r: Result<(u32, u32), String>)
        requires
            old(self).wf(),
            warp_target_has_room(old(self).maps_view(), map_id, entity_id),
        ensures
            final(self).wf(),
            same_terrains(old(self).maps_view(), final(self).maps_view()),
            final(self).map_counter() == old(self).map_counter(),
            final(self).levels_view() == old(self).levels_view(),
            ({
                let (p, res) = warp_step(
                    population(old(self).maps_view()),
                    old(self).maps_view()[map_id].warps_view(),
                    map_id,
                    entity_id,
                );
                &&& population(final(self).maps_view()) == p
                &&& match r {
                    Ok((target_id, new_id)) => res == Ok::<WorldEvent, Seq<char>>(
                        WorldEvent::EntiyMovedToMap {
                            old_entity_id: entity_id,
                            new_entity_id: new_id,
                            target_map_id: target_id,
                        },
                    ),
                    Err(msg) => res == Err::<WorldEvent, Seq<char>>(msg@),
                }
            }),
    {
        let map = match self.get_map(map_id) {
            Some(m) => m,
            None => {
                return Err("No map info".to_string());
            },
        };
        let entity = match map.get_entity(entity_id) {
            Some(e) => e,
            None => {
                return Err("No entity".to_string());
            },
        };
        let target_info = match map.warp_at(entity.pos.x, entity.pos.y) {
            Some(t) => *t,
            None => {
                return Err("No target info".to_string());
            },
        };
        let target_id = target_info.map_id;
        let new_entity_id = match self.transfer_entity(map_id, entity_id, target_info) {
            Ok(id) => id,
            Err(msg) => {
                return Err(msg);
            },
        };
        Ok((target_id, new_entity_id))
    }

    /// Moves the entity `entity_id` of map `source_map_id` to the position
    /// and map that `target` names, as `transfer_step` describes. Returns the
    /// entity's id on the target map.
    #[verifier::spinoff_prover]
    pub fn transfer_entity(&mut self, source_map_id: u32, entity_id: u32, target: TargetInfo) -> (r:
        Result<u32, String>)
        requires
            old(self).wf(),
            old(self).maps_view().contains_key(target.map_id) ==> old(
                self,
            ).maps_view()[target.map_id].next_id() < u32::MAX,
        ensures
            final(self).wf(),
            same_terrains(old(self).maps_view(), final(self).maps_view()),
            final(self).map_counter() == old(self).map_counter(),
            final(self).levels_view() == old(self).levels_view(),
            ({
                let (p, res) = transfer_step(
                    population(old(self).maps_view()),
                    source_map_id,
                    entity_id,
                    target,
                );
                &&& population(final(self).maps_view()) == p
                &&& match r {
                    Ok(id) => res == Ok::<u32, Seq<char>>(id),
                    Err(msg) => res == Err::<u32, Seq<char>>(msg@),
                }
            }),
    {
        broadcast use lemma_population_insert;

        let removed = match self.get_map_mut(source_map_id) {
            Some(source_map) => source_map.remove_entity(entity_id),
            None => {
                return Err("Source map not found".to_string());
            },
        };
        let ghost m1 = self.maps_view();
        proof {
            let m0 = old(self).maps_view();
            assert(m1 == m0.insert(source_map_id, m1[source_map_id]));
            lemma_same_terrains_insert(m0, source_map_id, m1[source_map_id]);
            if removed is None {
                assert(m1[source_map_id].entities_view() =~= m0[source_map_id].entities_view());
                assert(population(m1) =~= population(m0));
            }
        }
        let entity = match removed {
            Some(d) => d,
            None => {
                return Err("Entity not found".to_string());
            },
        };
        let id = match self.get_map_mut(target.map_id) {
            Some(target_map) => target_map.add_entity(entity, target.pos),
            None => {
                return Err("Target map not found".to_string());
            },
        };
        proof {
            let m2 = self.maps_view();
            assert(m2 == m1.insert(target.map_id, m2[target.map_id]));
            lemma_same_terrains_insert(m1, target.map_id, m2[target.map_id]);
            lemma_same_terrains_trans(old(self).maps_view(), m1, m2);
        }
        Ok(id)
    }

    /// Updates one map: the map updates its entities (see `GameMap::update`),
    /// then every entity that wants to use a warp and stands on one moves to
    /// where the warp leads, until one fails; see `map_update_outcome`.
    /// Returns one event per entity that moved.
    pub fn update_map(&mut self, map_id: u32) -> (r: Result<Vec<WorldEvent>, String>)
        requires
            old(self).wf(),
            room_for_warps(old(self).maps_view(), map_id),
        ensures
            final(self).wf(),
            same_terrains(old(self).maps_view(), final(self).maps_view()),
            final(self).map_counter() == old(self).map_counter(),
            final(self).levels_view() == old(self).levels_view(),
            !old(self).maps_view().contains_key(map_id) ==> final(self).maps_view() == old(
                self,
            ).maps_view() && match r {
                Ok(_) => false,
                Err(msg) => msg@ == "Map not found"@,
            },
            old(self).maps_view().contains_key(map_id) ==> exists|order: Seq<u32>| #[trigger]
                map_update_outcome(old(self).maps_view(), final(self).maps_view(), map_id, order, r),
    {
        let ghost m0 = old(self).maps_view();
        let updated = match self.get_map_mut(map_id) {
            Some(map) => map.update(),
            None => {
                return Err("Map not found".to_string());
            },
        };
        let acts = match updated {
            Ok(acts) => acts,
            Err(msg) => {
                return Err(msg);
            },
        };
        let ghost mu = self.maps_view();
        let ghost ids = warp_ids(acts@);
        let ghost pu = after_map_update(m0, map_id);
        let ghost warps = m0[map_id].warps_view();
        proof {
            assert(mu == m0.insert(map_id, mu[map_id]));
            assert(mu[map_id].entities_view() =~= m0[map_id].entities_view().map_values(
                |e: Entity| m0[map_id].moved(e),
            ));
            assert(population(mu) =~= pu);
            lemma_same_terrains_insert(m0, map_id, mu[map_id]);
            ids.unique_seq_to_set();
            assert(ids.take(0) =~= Seq::<u32>::empty());
        }
        let mut events: Vec<WorldEvent> = Vec::new();
        let mut i: usize = 0;
        while i < acts.len()
            invariant
                self.wf(),
                m0 == old(self).maps_view(),
                same_terrains(m0, self.maps_view()),
                self.map_counter() == old(self).map_counter(),
                self.levels_view() == old(self).levels_view(),
                i <= acts@.len(),
                ids == warp_ids(acts@),
                ids.no_duplicates(),
                ids.to_set() == warpers(m0[map_id]),
                ids.len() == warpers(m0[map_id]).len(),
                m0.contains_key(map_id),
                room_for_warps(m0, map_id),
                warps == m0[map_id].warps_view(),
                pu == after_map_update(m0, map_id),
                forall|k: u32| #[trigger]
                    m0.contains_key(k) ==> self.maps_view()[k].next_id() <= m0[k].next_id() + i,
                warp_all(pu, warps, map_id, ids.take(i as int)) == (
                    population(self.maps_view()),
                    events@,
                    None::<Seq<char>>,
                ),
            decreases acts@.len() - i,
        {
            let entity_id = match acts[i] {
                WorldAction::EntityUseWarp { entity_id } => entity_id,
            };
            let ghost before = self.maps_view();
            let ghost events_before = events@;
            proof {
                assert(ids.take(i + 1).drop_last() =~= ids.take(i as int));
                assert(ids.take(i + 1).last() == entity_id);
                assert(before[map_id].warps_view() == warps);
            }
            let info = match self.entity_use_warp(map_id, entity_id) {
                Ok(info) => info,
                Err(msg) => {
                    proof {
                        lemma_same_terrains_trans(m0, before, self.maps_view());
                        lemma_warp_all_stops(pu, warps, map_id, ids, i + 1);
                        assert(map_update_outcome(
                            m0,
                            self.maps_view(),
                            map_id,
                            ids,
                            Err::<Vec<WorldEvent>, String>(msg),
                        ));
                    }
                    return Err(msg);
                },
            };
            events.push(
                WorldEvent::EntiyMovedToMap {
                    old_entity_id: entity_id,
                    target_map_id: info.0,
                    new_entity_id: info.1,
                },
            );
            proof {
                lemma_same_terrains_trans(m0, before, self.maps_view());
                lemma_warp_step_next_ids(population(before), warps, map_id, entity_id);
                assert forall|k: u32| #[trigger]
                    m0.contains_key(k) implies self.maps_view()[k].next_id() <= m0[k].next_id() + i
                    + 1 by {
                    assert(population(before)[k].1 == before[k].next_id());
                    assert(population(self.maps_view())[k].1 == self.maps_view()[k].next_id());
                }
            }
            i += 1;
        }
        proof {
            assert(ids.take(acts@.len() as int) =~= ids);
            assert(map_update_outcome(
                m0,
                self.maps_view(),
                map_id,
                ids,
                Ok::<Vec<WorldEvent>, String>(events),
            ));
        }
        Ok(events)
    }

    /// Updates every map once, in the order in which the world hands out its
    /// map ids, as `update_map` does, until one update fails; see
    /// `all_maps_update_outcome`. Returns the events of all updates, in order.
    pub fn update_all(&mut self) -> (r: Result<Vec<WorldEvent>, String>)
        requires
            old(self).wf(),
            room_for_all_warps(old(self).maps_view()),
        ensures
            final(self).wf(),
            same_terrains(old(self).maps_view(), final(self).maps_view()),
            final(self).map_counter() == old(self).map_counter(),
            final(self).levels_view() == old(self).levels_view(),
            exists|
                map_order: Seq<u32>,
                states: Seq<Map<u32, GameMap>>,
                results: Seq<Result<Vec<WorldEvent>, String>>,
            |
                #[trigger] all_maps_update_outcome(
                    old(self).maps_view(),
                    final(self).maps_view(),
                    map_order,
                    states,
                    results,
                    r,
                ),
    {
        let ghost m0 = old(self).maps_view();
        let ids = collect_keys(&self.maps);
        let mut events: Vec<WorldEvent> = Vec::new();
        let ghost mut states: Seq<Map<u32, GameMap>> = seq![m0];
        let ghost mut results: Seq<Result<Vec<WorldEvent>, String>> = Seq::empty();
        proof {
            assert(ids@.take(0) =~= Seq::<u32>::empty());
            assert forall|k: u32| #[trigger] m0.contains_key(k) implies m0[k].next_id() + warp_budget(
                m0,
                ids@,
            ) <= u32::MAX by {
                assert(m0[k].next_id() + warp_budget(m0, ids@) <= u32::MAX);
            }
        }
        let mut i: usize = 0;
        while i < ids.len()
            invariant
                self.wf(),
                m0 == old(self).maps_view(),
                same_terrains(m0, self.maps_view()),
                self.map_counter() == old(self).map_counter(),
                self.levels_view() == old(self).levels_view(),
                i <= ids@.len(),
                ids@.no_duplicates(),
                ids@.to_set() == m0.dom(),
                forall|k: u32| #[trigger]
                    m0.contains_key(k) ==> m0[k].next_id() + warp_budget(m0, ids@) <= u32::MAX,
                states.len() == i + 1,
                results.len() == i,
                states[0] == m0,
                states.last() == self.maps_view(),
                forall|j: int|
                    0 <= j < i ==> #[trigger] updated_by(states[j], states[j + 1], ids@[j], results[j]),
                forall|j: int| 0 <= j < i ==> #[trigger] results[j] is Ok,
                events@ == events_of(results),
                forall|k: u32, id: u32|
                    m0.contains_key(k) && !ids@.take(i as int).contains(k) && #[trigger] m0[k].entities_view().contains_key(
                        id,
                    ) ==> self.maps_view()[k].entities_view().contains_key(id)
                        && self.maps_view()[k].entities_view()[id] == m0[k].entities_view()[id],
                forall|k: u32, id: u32|
                    m0.contains_key(k) && !ids@.take(i as int).contains(k) && #[trigger] self.maps_view()[k].entities_view().contains_key(
                        id,
                    ) && !m0[k].entities_view().contains_key(id)
                        ==> self.maps_view()[k].entities_view()[id].data.living().action
                        == Action::Idle,
                forall|k: u32| #[trigger]
                    m0.contains_key(k) ==> self.maps_view()[k].next_id() <= m0[k].next_id()
                        + warp_budget(m0, ids@.take(i as int)),
            decreases ids@.len() - i,
        {
            let id = ids[i];
            let ghost before = self.maps_view();
            let ghost results_before = results;
            proof {
                assert(ids@.to_set().contains(id));
                assert(!ids@.take(i as int).contains(id));
                assert(ids@.take(i + 1).drop_last() =~= ids@.take(i as int));
                lemma_warp_budget_prefix(m0, ids@, i + 1);
                assert(warpers(before[id]) =~= warpers(m0[id])) by {
                    assert forall|e: u32| before[id].wants_warp(e) implies m0[id].wants_warp(e) by {
                        assert(before[id].warps_view() == m0[id].warps_view());
                    }
                    assert forall|e: u32| m0[id].wants_warp(e) implies before[id].wants_warp(e) by {
                        assert(before[id].warps_view() == m0[id].warps_view());
                    }
                }
                assert(room_for_warps(before, id)) by {
                    assert forall|key: u32| #[trigger]
                        before[id].warps_view().contains_key(key) && before.contains_key(
                            before[id].warps_view()[key].map_id,
                        ) implies before[before[id].warps_view()[key].map_id].next_id() + warpers(
                        before[id],
                    ).len() <= u32::MAX by {
                        let t = before[id].warps_view()[key].map_id;
                        assert(m0.contains_key(t));
                    }
                }
            }
            let result = self.update_map(id);
            let ghost after = self.maps_view();
            proof {
                let order = choose|order: Seq<u32>|
                    #[trigger] map_update_outcome(before, after, id, order, result);
                order.unique_seq_to_set();
                let pu = after_map_update(before, id);
                assert(ids_below_next(pu)) by {
                    assert forall|k: u32, e: u32|
                        pu.contains_key(k) && #[trigger] pu[k].0.contains_key(e) implies e < pu[k].1 by {
                        assert(before.contains_key(k));
                        assert(before[k].wf());
                    }
                }
                assert(idle_map(pu[id].0));
                assert(warp_room(pu, before[id].warps_view(), order.len() as int)) by {
                    assert forall|key: u32| #[trigger]
                        before[id].warps_view().contains_key(key) && pu.contains_key(
                            before[id].warps_view()[key].map_id,
                        ) implies pu[before[id].warps_view()[key].map_id].1 + order.len()
                        <= u32::MAX by {
                        let t = before[id].warps_view()[key].map_id;
                        assert(before.contains_key(t));
                        assert(m0.contains_key(t));
                        assert(pu[t].1 == before[t].next_id());
                    }
                }
                lemma_warp_all_idle(pu, before[id].warps_view(), id, order);
                let q = warp_all(pu, before[id].warps_view(), id, order).0;
                assert(population(after) == q);
                assert(updated_by(before, after, id, result));
                states = states.push(after);
                results = results.push(result);
                assert forall|k: u32, e: u32|
                    m0.contains_key(k) && !ids@.take(i + 1).contains(k) && #[trigger] m0[k].entities_view().contains_key(
                        e,
                    ) implies after[k].entities_view().contains_key(e)
                    && after[k].entities_view()[e] == m0[k].entities_view()[e] by {
                    assert(!ids@.take(i as int).contains(k));
                    assert(k != id) by {
                        assert(ids@.take(i + 1)[i as int] == id);
                    }
                    assert(before[k].entities_view().contains_key(e));
                    assert(pu[k] == population(before)[k]);
                    assert(pu[k].0.contains_key(e));
                    assert(q[k] == population(after)[k]);
                }
                assert forall|k: u32, e: u32|
                    m0.contains_key(k) && !ids@.take(i + 1).contains(k) && #[trigger] after[k].entities_view().contains_key(
                        e,
                    ) && !m0[k].entities_view().contains_key(e)
                        implies after[k].entities_view()[e].data.living().action
                    == Action::Idle by {
                    assert(!ids@.take(i as int).contains(k));
                    assert(k != id) by {
                        assert(ids@.take(i + 1)[i as int] == id);
                    }
                    assert(pu[k] == population(before)[k]);
                    assert(q[k] == population(after)[k]);
                    assert(q[k].0.contains_key(e));
                    if before[k].entities_view().contains_key(e) {
                        assert(pu[k].0.contains_key(e));
                    }
                }
                assert forall|k: u32| #[trigger]
                    m0.contains_key(k) implies after[k].next_id() <= m0[k].next_id() + warp_budget(
                    m0,
                    ids@.take(i + 1),
                ) by {
                    assert(pu[k].1 == before[k].next_id());
                    assert(q[k] == population(after)[k]);
                }
            }
            match result {
                Ok(evs) => {
                    let mut evs = evs;
                    proof {
                        assert(results.drop_last() =~= results_before);
                        assert(results.last() == Ok::<Vec<WorldEvent>, String>(evs));
                    }
                    events.append(&mut evs);
                },
                Err(msg) => {
                    proof {
                        assert(all_maps_update_outcome(
                            m0,
                            self.maps_view(),
                            ids@,
                            states,
                            results,
                            Err::<Vec<WorldEvent>, String>(msg),
                        ));
                    }
                    return Err(msg);
                },
            }
            i += 1;
        }
        proof {
            assert(all_maps_update_outcome(
                m0,
                self.maps_view(),
                ids@,
                states,
                results,
                Ok::<Vec<WorldEvent>, String>(events),
            ));
        }
        Ok(events)
    }

    /// Whether the id counters leave room for one update of all maps: the
    /// largest next entity id plus the number of maps times the largest
    /// number of entities on one map fits in a `u32`. When it does, every
    /// warp of the update can hand out an id.
    pub fn has_room_for_update(&self) -> (r: bool)
        requires
            self.wf(),
        ensures
            r == (largest_next_id(self.maps_view()) + self.maps_view().len() * largest_entity_count(
                self.maps_view(),
            ) <= u32::MAX),
            r ==> room_for_all_warps(self.maps_view()),
    {
        let ids = collect_keys(&self.maps);
        let mut max_next: u32 = 0;
        let mut max_count: usize = 0;
        for i in 0..ids.len()
            invariant
                self.wf(),
                ids@.to_set() == self.maps_view().dom(),
                forall|j: int|
                    0 <= j < i ==> self.maps_view()[#[trigger] ids@[j]].next_id() <= max_next
                        && self.maps_view()[ids@[j]].entities_view().len() <= max_count,
                max_next == 0 || exists|j: int|
                    0 <= j < i && self.maps_view()[#[trigger] ids@[j]].next_id() == max_next,
                max_count == 0 || exists|j: int|
                    0 <= j < i && self.maps_view()[#[trigger] ids@[j]].entities_view().len()
                        == max_count,
        {
            let id = ids[i];
            assert(ids@.to_set().contains(id));
            let map = self.maps.get(&id).unwrap();
            let next = map.get_next_entity_id();
            let count = map.entity_count();
            if next > max_next {
                max_next = next;
            }
            if count > max_count {
                max_count = count;
            }
        }
        let map_count = ids.len();
        assert(map_count as u128 * max_count as u128 <= 0xffff_ffff_ffff_ffffu128
            * 0xffff_ffff_ffff_ffffu128) by (nonlinear_arith)
            requires
                map_count <= 0xffff_ffff_ffff_ffffu128,
                max_count <= 0xffff_ffff_ffff_ffffu128,
        ;
        let total: u128 = max_next as u128 + map_count as u128 * max_count as u128;
        let r = total <= 0xffff_ffffu128;
        proof {
            let m = self.maps_view();
            ids@.unique_seq_to_set();
            assert(is_largest_next_id(m, max_next as int)) by {
                assert forall|k: u32| #[trigger] m.contains_key(k) implies m[k].next_id()
                    <= max_next by {
                    assert(ids@.to_set().contains(k));
                    let j = ids@.index_of(k);
                    assert(ids@[j] == k);
                }
                if max_next != 0 {
                    let j = choose|j: int|
                        0 <= j < ids@.len() && m[#[trigger] ids@[j]].next_id() == max_next;
                    assert(ids@.to_set().contains(ids@[j]));
                    assert(m.contains_key(ids@[j]));
                }
            }
            assert(is_largest_entity_count(m, max_count as int)) by {
                assert forall|k: u32| #[trigger] m.contains_key(k) implies m[k].entities_view().len()
                    <= max_count by {
                    assert(ids@.to_set().contains(k));
                    let j = ids@.index_of(k);
                    assert(ids@[j] == k);
                }
                if max_count != 0 {
                    let j = choose|j: int|
                        0 <= j < ids@.len() && m[#[trigger] ids@[j]].entities_view().len()
                            == max_count;
                    assert(ids@.to_set().contains(ids@[j]));
                    assert(m.contains_key(ids@[j]));
                }
            }
            lemma_largest_unique(m, max_next as int, largest_next_id(m));
            lemma_largest_unique(m, max_count as int, largest_entity_count(m));
            assert(m.len() == map_count);
        }
        proof {
            if r {
                assert forall|order: Seq<u32>, k: u32|
                    #![trigger warp_budget(self.maps_view(), order), self.maps_view()[k]]
                    order.no_duplicates() && order.to_set() == self.maps_view().dom()
                        && self.maps_view().contains_key(k) implies self.maps_view()[k].next_id()
                    + warp_budget(self.maps_view(), order) <= u32::MAX by {
                    let m = self.maps_view();
                    assert forall|j: int| 0 <= j < order.len() implies m.contains_key(
                        #[trigger] order[j],
                    ) && m[order[j]].wf() && m[order[j]].entities_view().len() <= max_count by {
                        assert(order.to_set().contains(order[j]));
                        assert(ids@.to_set().contains(order[j]));
                        let jj = ids@.index_of(order[j]);
                        assert(ids@[jj] == order[j]);
                    }
                    lemma_warp_budget_bound(m, order, max_count as int);
                    order.unique_seq_to_set();
                    ids@.unique_seq_to_set();
                    assert(ids@.to_set().contains(k));
                    let jk = ids@.index_of(k);
                    assert(ids@[jk] == k);
                    assert(order.len() * max_count <= map_count * max_count) by (nonlinear_arith)
                        requires
                            order.len() == map_count,
                    ;
                }
            }
        }
        r
    }
}

} // verus!
