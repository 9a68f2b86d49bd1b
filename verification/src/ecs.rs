//! The entity store of the game: a `specs` world that holds the
//! components of every entity. Verus cannot look inside a `specs::World`,
//! so its contents are named here, and every call into `specs` that the
//! game makes stands behind a wrapper whose contract speaks of that name.

use vstd::prelude::*;

use crate::components::{Aggressive, Location, Moving, Name, Player, Speaking, NPC};
use crate::constants::Direction;

verus! {

/// The `specs` world, opaque to Verus; its contents are `ecs_rows`.
#[verifier::external_type_specification]
#[verifier::external_body]
pub struct ExWorld(specs::World);

/// A `specs` entity handle, opaque to Verus; what tells two apart is
/// `entity_key`.
#[verifier::external_type_specification]
#[verifier::external_body]
pub struct ExEntity(specs::Entity);

/// What the store holds for one live entity, as plain values. `key` is
/// the entity's index and generation; the other fields are its
/// components, `None` or `false` where the entity has none.
pub struct RowView {
    pub key: (u32, i32),
    pub player: Option<u128>,
    pub npc: bool,
    pub name: Option<Seq<char>>,
    pub location: Option<Location>,
    pub speaking: Option<Seq<char>>,
    pub moving: Option<Direction>,
    pub aggressive: bool,
}

/// The live entities of a world with their components, in the order in
/// which a `specs` join visits them (ascending entity index).
pub uninterp spec fn ecs_rows(w: specs::World) -> Seq<RowView>;

/// The index and generation of an entity handle.
pub uninterp spec fn entity_key(e: specs::Entity) -> (u32, i32);

/// Whether every component type of this library is registered in the
/// world, and no lazily queued update, atomic creation or atomic deletion
/// of an entity is pending in it.
pub uninterp spec fn ecs_ready(w: specs::World) -> bool;

/// Every key that the world's allocator has handed out: for each index,
/// the generations from 1 up to the last one given to it. A key leaves
/// the live rows when its entity dies but stays in this set; a new entity
/// gets a key that is not in it.
pub uninterp spec fn ecs_issued(w: specs::World) -> Set<(u32, i32)>;

/// Whether every key in `keys` has a generation below `bound`.
pub open spec fn gens_below(keys: Set<(u32, i32)>, bound: int) -> bool {
    forall|k: (u32, i32)| keys.contains(k) ==> k.1 < bound
}

/// One live entity of the store, with copies of its components.
pub struct EntityRow {
    pub entity: specs::Entity,
    pub player: Option<u128>,
    pub npc: bool,
    pub name: Option<String>,
    pub location: Option<Location>,
    pub speaking: Option<String>,
    pub moving: Option<Direction>,
    pub aggressive: bool,
}

/// The text of an optional string.
pub open spec fn opt_text(s: Option<String>) -> Option<Seq<char>> {
    match s {
        Some(t) => Some(t@),
        None => None,
    }
}

impl View for EntityRow {
    type V = RowView;

    open spec fn view(&self) -> RowView {
        RowView {
            key: entity_key(self.entity),
            player: self.player,
            npc: self.npc,
            name: opt_text(self.name),
            location: self.location,
            speaking: opt_text(self.speaking),
            moving: self.moving,
            aggressive: self.aggressive,
        }
    }
}

/// The views of a list of rows.
pub open spec fn rows_view(rows: Seq<EntityRow>) -> Seq<RowView> {
    rows.map_values(|r: EntityRow| r@)
}

/// Whether the rows are listed by strictly ascending entity index.
pub open spec fn ascending(rows: Seq<RowView>) -> bool {
    forall|i: int, j: int| 0 <= i < j < rows.len() ==> rows[i].key.0 < rows[j].key.0
}

/// Whether an entity with this key is alive in the rows.
pub open spec fn has_key(rows: Seq<RowView>, key: (u32, i32)) -> bool {
    exists|i: int| 0 <= i < rows.len() && rows[i].key == key
}

/// Creates the store (`WorldExt::new`) and registers every component type
/// of the library (`WorldExt::register`): the store is empty and ready.
#[verifier::external_body]
pub(crate) fn new_world() -> (w: specs::World)
    ensures
        ecs_rows(w) == Seq::<RowView>::empty(),
        ecs_ready(w),
        ecs_issued(w) == Set::<(u32, i32)>::empty(),
{
    let mut w: specs::World = specs::WorldExt::new();
    specs::WorldExt::register::<Player>(&mut w);
    specs::WorldExt::register::<NPC>(&mut w);
    specs::WorldExt::register::<Name>(&mut w);
    specs::WorldExt::register::<Location>(&mut w);
    specs::WorldExt::register::<Speaking>(&mut w);
    specs::WorldExt::register::<Moving>(&mut w);
    specs::WorldExt::register::<Aggressive>(&mut w);
    w
}

/// What a row holds apart from the entity's intents for this tick:
/// handle, player, npc mark, name, location and aggression mark.
pub type BodyTuple = (specs::Entity, Option<u128>, bool, Option<String>, Option<Location>, bool);

/// What a row holds of the entity's intents for this tick: speech and step.
pub type IntentTuple = (Option<String>, Option<Direction>);

/// Whether `t` holds exactly the handle and lasting components of `row`.
pub open spec fn body_matches(t: BodyTuple, row: RowView) -> bool {
    &&& entity_key(t.0) == row.key
    &&& t.1 == row.player
    &&& t.2 == row.npc
    &&& opt_text(t.3) == row.name
    &&& t.4 == row.location
    &&& t.5 == row.aggressive
}

/// Whether `t` holds exactly the intents of `row`.
pub open spec fn intent_matches(t: IntentTuple, row: RowView) -> bool {
    &&& opt_text(t.0) == row.speaking
    &&& t.1 == row.moving
}

/// Joins the entity list with the lasting component storages
/// (`Entities` joined, `Storage::get` and `Storage::contains` for each
/// entity): one tuple per live entity, in join order, which is ascending
/// index; each tuple holds the entity's handle and copies of its
/// components.
#[verifier::external_body]
fn read_bodies(w: &specs::World) -> (r: Vec<BodyTuple>)
    requires
        ecs_ready(*w),
    ensures
        r@.len() == ecs_rows(*w).len(),
        forall|i: int| 0 <= i < r@.len() ==> body_matches(#[trigger] r@[i], ecs_rows(*w)[i]),
        forall|i: int, j: int|
            0 <= i < j < r@.len() ==> entity_key(#[trigger] r@[i].0).0 < entity_key(#[trigger] r@[j].0).0,
{
    let (es, pl, np, nm, lo, ag) = w.system_data::<(specs::Entities, specs::ReadStorage<Player>, specs::ReadStorage<NPC>, specs::ReadStorage<Name>, specs::ReadStorage<Location>, specs::ReadStorage<Aggressive>)>();
    specs::Join::join(&es).map(|e| (e, pl.get(e).map(|p| p.id), np.contains(e),
        nm.get(e).map(|n| n.val.clone()), lo.get(e).copied(), ag.contains(e))).collect()
}

/// Joins the entity list with the storages of speech and steps
/// (`Entities` joined, `Storage::get` for each entity): one tuple per
/// live entity, in the same join order as `read_bodies`.
#[verifier::external_body]
fn read_intents(w: &specs::World) -> (r: Vec<IntentTuple>)
    requires
        ecs_ready(*w),
    ensures
        r@.len() == ecs_rows(*w).len(),
        forall|i: int| 0 <= i < r@.len() ==> intent_matches(#[trigger] r@[i], ecs_rows(*w)[i]),
{
    let (es, sp, mv) = w.system_data::<(specs::Entities, specs::ReadStorage<Speaking>, specs::ReadStorage<Moving>)>();
    specs::Join::join(&es).map(|e| (sp.get(e).map(|s| s.msg.clone()), mv.get(e).map(|m| m.direction))).collect()
}

/// Reads every live entity of the store with its components.
pub fn snapshot(w: &specs::World) -> (rows: Vec<EntityRow>)
    requires
        ecs_ready(*w),
    ensures
        rows_view(rows@) == ecs_rows(*w),
        ascending(rows_view(rows@)),
{
    let bodies = read_bodies(w);
    let intents = read_intents(w);
    let mut rows: Vec<EntityRow> = Vec::new();
    let mut i: usize = 0;
    let n = bodies.len();
    while i < n
        invariant
            n == bodies@.len(),
            n == intents@.len(),
            n == ecs_rows(*w).len(),
            i <= n,
            rows@.len() == i,
            forall|k: int| 0 <= k < n ==> body_matches(#[trigger] bodies@[k], ecs_rows(*w)[k]),
            forall|k: int| 0 <= k < n ==> intent_matches(#[trigger] intents@[k], ecs_rows(*w)[k]),
            forall|k: int| 0 <= k < i ==> #[trigger] rows@[k]@ == ecs_rows(*w)[k],
            forall|a: int, b: int|
                0 <= a < b < n ==> entity_key(#[trigger] bodies@[a].0).0 < entity_key(#[trigger] bodies@[b].0).0,
        decreases n - i,
    {
        let b = &bodies[i];
        let t = &intents[i];
        let row = EntityRow {
            entity: b.0,
            player: b.1,
            npc: b.2,
            name: b.3.clone(),
            location: b.4,
            speaking: t.0.clone(),
            moving: t.1,
            aggressive: b.5,
        };
        proof {
            assert(body_matches(bodies@[i as int], ecs_rows(*w)[i as int]));
            assert(intent_matches(intents@[i as int], ecs_rows(*w)[i as int]));
        }
        rows.push(row);
        i = i + 1;
    }
    assert(rows_view(rows@) =~= ecs_rows(*w));
    assert forall|a: int, b: int| 0 <= a < b < rows@.len() implies
        rows_view(rows@)[a].key.0 < rows_view(rows@)[b].key.0 by {
        assert(body_matches(bodies@[a], ecs_rows(*w)[a]));
        assert(body_matches(bodies@[b], ecs_rows(*w)[b]));
    }
    rows
}

/// The rows after the entity with `key` is given a step.
pub open spec fn rows_with_moving(rows: Seq<RowView>, key: (u32, i32), d: Option<Direction>) -> Seq<RowView> {
    rows.map_values(|r: RowView| if r.key == key { RowView { moving: d, ..r } } else { r })
}

/// The rows after the entity with `key` is given something to say.
pub open spec fn rows_with_speaking(rows: Seq<RowView>, key: (u32, i32), msg: Option<Seq<char>>) -> Seq<RowView> {
    rows.map_values(|r: RowView| if r.key == key { RowView { speaking: msg, ..r } } else { r })
}

/// The rows after the entity with `key` is put in another room.
pub open spec fn rows_with_location(rows: Seq<RowView>, key: (u32, i32), loc: Location) -> Seq<RowView> {
    rows.map_values(|r: RowView| if r.key == key { RowView { location: Some(loc), ..r } } else { r })
}

/// The rows after the entity with `key` is deleted.
pub open spec fn rows_without(rows: Seq<RowView>, key: (u32, i32)) -> Seq<RowView> {
    rows.filter(|r: RowView| r.key != key)
}

/// The row of a freshly joined player.
pub open spec fn player_row(key: (u32, i32), id: u128, name: Seq<char>, loc: Location) -> RowView {
    RowView {
        key,
        player: Some(id),
        npc: false,
        name: Some(name),
        location: Some(loc),
        speaking: None,
        moving: None,
        aggressive: false,
    }
}

/// The row of a freshly spawned non-player character.
pub open spec fn npc_row(key: (u32, i32), name: Seq<char>, loc: Location) -> RowView {
    RowView {
        key,
        player: None,
        npc: true,
        name: Some(name),
        location: Some(loc),
        speaking: None,
        moving: None,
        aggressive: true,
    }
}

/// Whether `after` is `before` with `row` put in at some position.
pub open spec fn inserted_somewhere(before: Seq<RowView>, after: Seq<RowView>, row: RowView) -> bool {
    exists|k: int| 0 <= k <= before.len() && after == before.insert(k, row)
}

/// Builds a player entity (`specs` `create_entity`, `with` and `build`).
/// `specs` allocates the entity an index that no live entity holds, so
/// the new row lands somewhere among the others; where is not stated.
/// The key is new: a reused index gets the generation after the last one
/// it had, a fresh index generation 1. Allocation panics only once every
/// `u32` index is alive, or when a generation would pass `i32::MAX`.
#[verifier::external_body]
pub(crate) fn create_player(w: &mut specs::World, id: u128, name: String, loc: Location) -> (e: specs::Entity)
    requires
        ecs_ready(*old(w)),
        ecs_rows(*old(w)).len() < 4294967295,
        gens_below(ecs_issued(*old(w)), 2147483647),
    ensures
        ecs_ready(*final(w)),
        !has_key(ecs_rows(*old(w)), entity_key(e)),
        inserted_somewhere(ecs_rows(*old(w)), ecs_rows(*final(w)), player_row(entity_key(e), id, name@, loc)),
        !ecs_issued(*old(w)).contains(entity_key(e)),
        ecs_issued(*final(w)) == ecs_issued(*old(w)).insert(entity_key(e)),
        forall|b: int| b >= 1 && gens_below(ecs_issued(*old(w)), b) ==> gens_below(ecs_issued(*final(w)), b + 1),
{
    let b = specs::WorldExt::create_entity(w);
    specs::Builder::build(specs::Builder::with(specs::Builder::with(specs::Builder::with(b, Player { id }), Name { val: name }), loc))
}

/// Builds an aggressive non-player character (`specs` `create_entity`,
/// `with` and `build`); as for `create_player`, the position of the new
/// row is not stated.
#[verifier::external_body]
pub(crate) fn create_npc(w: &mut specs::World, name: String, loc: Location) -> (e: specs::Entity)
    requires
        ecs_ready(*old(w)),
        ecs_rows(*old(w)).len() < 4294967295,
        gens_below(ecs_issued(*old(w)), 2147483647),
    ensures
        ecs_ready(*final(w)),
        !has_key(ecs_rows(*old(w)), entity_key(e)),
        inserted_somewhere(ecs_rows(*old(w)), ecs_rows(*final(w)), npc_row(entity_key(e), name@, loc)),
        !ecs_issued(*old(w)).contains(entity_key(e)),
        ecs_issued(*final(w)) == ecs_issued(*old(w)).insert(entity_key(e)),
        forall|b: int| b >= 1 && gens_below(ecs_issued(*old(w)), b) ==> gens_below(ecs_issued(*final(w)), b + 1),
{
    let b = specs::Builder::with(specs::WorldExt::create_entity(w), NPC {});
    specs::Builder::build(specs::Builder::with(specs::Builder::with(specs::Builder::with(b, Name { val: name }), loc), Aggressive {}))
}

/// Gives a live entity a step (`Storage::insert` on the `Moving`
/// storage, which replaces a step already there). The insert fails, and
/// the unwrap panics, only for a dead entity.
#[verifier::external_body]
pub(crate) fn insert_moving(w: &mut specs::World, e: specs::Entity, direction: Direction)
    requires
        ecs_ready(*old(w)),
        has_key(ecs_rows(*old(w)), entity_key(e)),
    ensures
        ecs_ready(*final(w)),
        ecs_issued(*final(w)) == ecs_issued(*old(w)),
        ecs_rows(*final(w)) == rows_with_moving(ecs_rows(*old(w)), entity_key(e), Some(direction)),
{
    specs::WorldExt::write_storage::<Moving>(w).insert(e, Moving { direction }).unwrap();
}

/// Gives a live entity something to say (`Storage::insert` on the
/// `Speaking` storage).
#[verifier::external_body]
pub(crate) fn insert_speaking(w: &mut specs::World, e: specs::Entity, msg: String)
    requires
        ecs_ready(*old(w)),
        has_key(ecs_rows(*old(w)), entity_key(e)),
    ensures
        ecs_ready(*final(w)),
        ecs_issued(*final(w)) == ecs_issued(*old(w)),
        ecs_rows(*final(w)) == rows_with_speaking(ecs_rows(*old(w)), entity_key(e), Some(msg@)),
{
    specs::WorldExt::write_storage::<Speaking>(w).insert(e, Speaking { msg }).unwrap();
}

/// Takes the step away from an entity (`Storage::remove` on the `Moving`
/// storage; nothing happens for a dead entity).
#[verifier::external_body]
pub(crate) fn remove_moving(w: &mut specs::World, e: specs::Entity)
    requires
        ecs_ready(*old(w)),
    ensures
        ecs_ready(*final(w)),
        ecs_issued(*final(w)) == ecs_issued(*old(w)),
        ecs_rows(*final(w)) == rows_with_moving(ecs_rows(*old(w)), entity_key(e), None),
{
    specs::WorldExt::write_storage::<Moving>(w).remove(e);
}

/// Takes the speech away from an entity (`Storage::remove` on the
/// `Speaking` storage; nothing happens for a dead entity).
#[verifier::external_body]
pub(crate) fn remove_speaking(w: &mut specs::World, e: specs::Entity)
    requires
        ecs_ready(*old(w)),
    ensures
        ecs_ready(*final(w)),
        ecs_issued(*final(w)) == ecs_issued(*old(w)),
        ecs_rows(*final(w)) == rows_with_speaking(ecs_rows(*old(w)), entity_key(e), None),
{
    specs::WorldExt::write_storage::<Speaking>(w).remove(e);
}

/// Moves a live entity to another room: `Storage::remove` and then
/// `Storage::insert` on the `Location` storage.
#[verifier::external_body]
pub(crate) fn relocate(w: &mut specs::World, e: specs::Entity, loc: Location)
    requires
        ecs_ready(*old(w)),
        has_key(ecs_rows(*old(w)), entity_key(e)),
    ensures
        ecs_ready(*final(w)),
        ecs_issued(*final(w)) == ecs_issued(*old(w)),
        ecs_rows(*final(w)) == rows_with_location(ecs_rows(*old(w)), entity_key(e), loc),
{
    let mut locations = specs::WorldExt::write_storage::<Location>(w);
    locations.remove(e);
    locations.insert(e, loc).unwrap();
}

/// Deletes a live entity with all its components
/// (`WorldExt::delete_entity`, which fails, and the unwrap panics, only
/// for a dead entity).
#[verifier::external_body]
pub(crate) fn delete_entity(w: &mut specs::World, e: specs::Entity)
    requires
        ecs_ready(*old(w)),
        has_key(ecs_rows(*old(w)), entity_key(e)),
    ensures
        ecs_ready(*final(w)),
        ecs_issued(*final(w)) == ecs_issued(*old(w)),
        ecs_rows(*final(w)) == rows_without(ecs_rows(*old(w)), entity_key(e)),
{
    specs::WorldExt::delete_entity(w, e).unwrap();
}

/// Runs `WorldExt::maintain`, which applies pending lazy work; with none
/// pending it leaves the live entities as they are.
#[verifier::external_body]
pub(crate) fn maintain(w: &mut specs::World)
    requires
        ecs_ready(*old(w)),
    ensures
        ecs_ready(*final(w)),
        ecs_issued(*final(w)) == ecs_issued(*old(w)),
        ecs_rows(*final(w)) == ecs_rows(*old(w)),
{
    specs::WorldExt::maintain(w);
}

/// Whether two handles name the same entity (the derived `==` of
/// `specs::Entity`, which compares index and generation).
#[verifier::external_body]
pub(crate) fn same_entity(a: specs::Entity, b: specs::Entity) -> (r: bool)
    ensures
        r == (entity_key(a) == entity_key(b)),
{
    a == b
}

} // verus!

verus! {

/// What every live entity keeps true: its room is on the map, and a named
/// entity that is not a player, or that is aggressive, has a name that is
/// not empty (an article is put before such names).
pub open spec fn row_wf(r: RowView) -> bool {
    &&& r.location is Some ==> crate::components::on_map(r.location.unwrap().address)
    &&& (r.name is Some && (r.player is None || r.aggressive)) ==> r.name.unwrap().len() > 0
}

/// Whether every row keeps `row_wf`.
pub open spec fn world_wf(rows: Seq<RowView>) -> bool {
    forall|i: int| 0 <= i < rows.len() ==> #[trigger] row_wf(rows[i])
}

/// The position of the row of entity `e`, if it is alive.
pub fn find_row(rows: &Vec<EntityRow>, e: specs::Entity) -> (r: Option<usize>)
    ensures
        match r {
            Some(i) => i < rows@.len() && rows@[i as int]@.key == entity_key(e),
            None => !has_key(rows_view(rows@), entity_key(e)),
        },
{
    let mut i: usize = 0;
    while i < rows.len()
        invariant
            i <= rows@.len(),
            forall|j: int| 0 <= j < i ==> rows@[j]@.key != entity_key(e),
        decreases rows@.len() - i,
    {
        if same_entity(rows[i].entity, e) {
            return Some(i);
        }
        i = i + 1;
    }
    proof {
        assert forall|j: int| 0 <= j < rows_view(rows@).len() implies rows_view(rows@)[j].key != entity_key(e) by {
            assert(rows_view(rows@)[j] == rows@[j]@);
        }
    }
    None
}

/// The row of the live entity with `key`.
pub open spec fn row_of(rows: Seq<RowView>, key: (u32, i32)) -> RowView {
    rows[choose|i: int| 0 <= i < rows.len() && rows[i].key == key]
}

/// In rows listed by ascending index, a key names one row only.
pub proof fn lemma_row_of(rows: Seq<RowView>, i: int)
    requires
        ascending(rows),
        0 <= i < rows.len(),
    ensures
        row_of(rows, rows[i].key) == rows[i],
{
    let key = rows[i].key;
    assert(exists|j: int| 0 <= j < rows.len() && rows[j].key == key);
    let j = choose|j: int| 0 <= j < rows.len() && rows[j].key == key;
    if j < i {
        assert(rows[j].key.0 < rows[i].key.0);
    } else if j > i {
        assert(rows[i].key.0 < rows[j].key.0);
    }
}

} // verus!
