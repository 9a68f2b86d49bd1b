//! Travel across the map: which steps the map allows, the exits of a
//! room, and the system that carries out every step taken in a tick.

use vstd::prelude::*;
use vstd::string::StringExecFns;

use crate::communication::{pronoun, spec_pronoun};
use crate::components::{map_location, on_map, spec_map_location, Location};
use crate::constants::{Direction, MAP_X_MAX, MAP_X_MIN, MAP_Y_MAX, MAP_Y_MIN, TERMWIDTH};
use crate::ecs::{
    ecs_issued,
    ascending, ecs_ready, ecs_rows, entity_key, relocate, remove_moving, row_wf, rows_view,
    rows_with_location, same_entity, snapshot, world_wf, EntityRow, RowView,
};
use crate::message::{msgs_view, row_at, Outgoing};
use crate::room::{render_room, room_text, stands_at};
use crate::text::{fill, wrapped};

verus! {

/// The word for a direction, as in "exits to the north".
pub open spec fn direction_word(d: Direction) -> Seq<char> {
    match d {
        Direction::N => "north"@,
        Direction::S => "south"@,
        Direction::E => "east"@,
        Direction::W => "west"@,
    }
}

/// The direction that leads back.
pub open spec fn opposite(d: Direction) -> Direction {
    match d {
        Direction::N => Direction::S,
        Direction::S => Direction::N,
        Direction::E => Direction::W,
        Direction::W => Direction::E,
    }
}

/// Whether the map has a room one step from `addr` in direction `d`.
pub open spec fn can_move(addr: (usize, usize), d: Direction) -> bool {
    match d {
        Direction::N => addr.1 < MAP_Y_MAX,
        Direction::S => addr.1 > MAP_Y_MIN,
        Direction::E => addr.0 < MAP_X_MAX,
        Direction::W => addr.0 > MAP_X_MIN,
    }
}

/// The address one step from `addr` in direction `d`; the address itself
/// where the map ends there.
pub open spec fn step(addr: (usize, usize), d: Direction) -> (usize, usize) {
    if !can_move(addr, d) {
        addr
    } else {
        match d {
            Direction::N => (addr.0, (addr.1 + 1) as usize),
            Direction::S => (addr.0, (addr.1 - 1) as usize),
            Direction::E => ((addr.0 + 1) as usize, addr.1),
            Direction::W => ((addr.0 - 1) as usize, addr.1),
        }
    }
}

/// Checks a step against the edges of the map: whether it can be taken,
/// where it leads, the word for the way out and the word for the way in
/// (empty when the step cannot be taken).
pub fn bounds_check(curr_addr: (usize, usize), direction: &Direction) -> (r: (
    bool,
    (usize, usize),
    &'static str,
    &'static str,
))
    ensures
        r.0 == can_move(curr_addr, *direction),
        r.1 == step(curr_addr, *direction),
        r.2@ == direction_word(*direction),
        r.3@ == (if r.0 {
            direction_word(opposite(*direction))
        } else {
            Seq::<char>::empty()
        }),
{
    let (x, y) = curr_addr;
    let new_addr: (usize, usize) = curr_addr;
    proof {
        reveal_strlit("");
    }
    match direction {
        Direction::N => {
            if y < MAP_Y_MAX {
                (true, (x, y + 1), "north", "south")
            } else {
                (false, new_addr, "north", "")
            }
        },
        Direction::S => {
            if y > MAP_Y_MIN {
                (true, (x, y - 1), "south", "north")
            } else {
                (false, new_addr, "south", "")
            }
        },
        Direction::E => {
            if x < MAP_X_MAX {
                (true, (x + 1, y), "east", "west")
            } else {
                (false, new_addr, "east", "")
            }
        },
        Direction::W => {
            if x > MAP_X_MIN {
                (true, (x - 1, y), "west", "east")
            } else {
                (false, new_addr, "west", "")
            }
        },
    }
}

/// The exits of the room at `addr`, in the order north, south, east, west.
pub open spec fn exits_of(addr: (usize, usize)) -> Seq<Direction> {
    let n = if can_move(addr, Direction::N) { seq![Direction::N] } else { Seq::empty() };
    let s = if can_move(addr, Direction::S) { seq![Direction::S] } else { Seq::empty() };
    let e = if can_move(addr, Direction::E) { seq![Direction::E] } else { Seq::empty() };
    let w = if can_move(addr, Direction::W) { seq![Direction::W] } else { Seq::empty() };
    n + s + e + w
}

/// The listing of the exits of the room at `addr`, such as "N S E ".
pub open spec fn exits_text(addr: (usize, usize)) -> Seq<char> {
    let n = if can_move(addr, Direction::N) { "N "@ } else { Seq::empty() };
    let s = if can_move(addr, Direction::S) { "S "@ } else { Seq::empty() };
    let e = if can_move(addr, Direction::E) { "E "@ } else { Seq::empty() };
    let w = if can_move(addr, Direction::W) { "W "@ } else { Seq::empty() };
    n + s + e + w
}

/// Lists the exits of the room at `addr`.
pub fn exits(addr: (usize, usize)) -> (r: String)
    ensures
        r@ == exits_text(addr),
{
    let (x, y) = addr;
    let mut exits = String::new();
    if y < MAP_Y_MAX {
        exits.append("N ");
    }
    if y > MAP_Y_MIN {
        exits.append("S ");
    }
    if x < MAP_X_MAX {
        exits.append("E ");
    }
    if x > MAP_X_MIN {
        exits.append("W ");
    }
    assert(exits@ =~= exits_text(addr));
    exits
}

/// The exits that a room lists are exactly the steps that `bounds_check`
/// lets an entity take from it.
pub proof fn exits_agree_with_bounds(addr: (usize, usize), d: Direction)
    ensures
        exits_of(addr).contains(d) <==> can_move(addr, d),
{
    if can_move(addr, d) {
        let ex = exits_of(addr);
        match d {
            Direction::N => assert(ex[0] == d),
            Direction::S => {
                let k = if can_move(addr, Direction::N) { 1int } else { 0int };
                assert(ex[k] == d);
            },
            Direction::E => {
                let k = (if can_move(addr, Direction::N) { 1int } else { 0int }) + (if can_move(addr, Direction::S) { 1int } else { 0int });
                assert(ex[k] == d);
            },
            Direction::W => {
                let k = (if can_move(addr, Direction::N) { 1int } else { 0int }) + (if can_move(addr, Direction::S) { 1int } else { 0int }) + (if can_move(addr, Direction::E) { 1int } else { 0int });
                assert(ex[k] == d);
            },
        }
    }
}

/// The letter that names a direction in a list of exits.
pub open spec fn exit_letter(d: Direction) -> Seq<char> {
    match d {
        Direction::N => "N"@,
        Direction::S => "S"@,
        Direction::E => "E"@,
        Direction::W => "W"@,
    }
}

/// A list of directions written out: each letter followed by a space.
pub open spec fn exit_listing(ds: Seq<Direction>) -> Seq<char>
    decreases ds.len(),
{
    if ds.len() == 0 {
        Seq::empty()
    } else {
        exit_listing(ds.drop_last()) + exit_letter(ds.last()) + " "@
    }
}

/// Writing out two lists one after the other writes out their join.
proof fn lemma_exit_listing_join(a: Seq<Direction>, b: Seq<Direction>)
    ensures
        exit_listing(a + b) == exit_listing(a) + exit_listing(b),
    decreases b.len(),
{
    if b.len() == 0 {
        assert(a + b =~= a);
        assert(exit_listing(a) + exit_listing(b) =~= exit_listing(a));
    } else {
        lemma_exit_listing_join(a, b.drop_last());
        assert((a + b).drop_last() =~= a + b.drop_last());
        assert((a + b).last() == b.last());
        assert(exit_listing(a + b) =~= exit_listing(a) + exit_listing(b));
    }
}

/// The exits that a room lists are written, in the order north, south,
/// east, west, as the letter of each direction that `bounds_check` lets
/// an entity take from it, each followed by a space.
pub proof fn exits_text_lists_exits(addr: (usize, usize))
    ensures
        exits_text(addr) == exit_listing(exits_of(addr)),
{
    reveal_strlit("N ");
    reveal_strlit("S ");
    reveal_strlit("E ");
    reveal_strlit("W ");
    reveal_strlit("N");
    reveal_strlit("S");
    reveal_strlit("E");
    reveal_strlit("W");
    reveal_strlit(" ");
    let n = if can_move(addr, Direction::N) { seq![Direction::N] } else { Seq::<Direction>::empty() };
    let s = if can_move(addr, Direction::S) { seq![Direction::S] } else { Seq::<Direction>::empty() };
    let e = if can_move(addr, Direction::E) { seq![Direction::E] } else { Seq::<Direction>::empty() };
    let w = if can_move(addr, Direction::W) { seq![Direction::W] } else { Seq::<Direction>::empty() };
    lemma_exit_listing_join(n + s + e, w);
    lemma_exit_listing_join(n + s, e);
    lemma_exit_listing_join(n, s);
    assert forall|d: Direction| #[trigger] exit_listing(seq![d]) == exit_letter(d) + " "@ by {
        assert(seq![d].drop_last() =~= Seq::<Direction>::empty());
        assert(seq![d].last() == d);
        assert(exit_listing(Seq::<Direction>::empty()) == Seq::<char>::empty());
        assert(Seq::<char>::empty() + exit_letter(d) =~= exit_letter(d));
    }
    assert(exit_listing(Seq::<Direction>::empty()) == Seq::<char>::empty());
    let tn = if can_move(addr, Direction::N) { "N "@ } else { Seq::<char>::empty() };
    let ts = if can_move(addr, Direction::S) { "S "@ } else { Seq::<char>::empty() };
    let te = if can_move(addr, Direction::E) { "E "@ } else { Seq::<char>::empty() };
    let tw = if can_move(addr, Direction::W) { "W "@ } else { Seq::<char>::empty() };
    assert(exit_listing(n) =~= tn);
    assert(exit_listing(s) =~= ts);
    assert(exit_listing(e) =~= te);
    assert(exit_listing(w) =~= tw);
    assert(exits_text(addr) =~= exit_listing(exits_of(addr)));
}

/// A step that the map allows keeps an entity on the map.
pub proof fn step_stays_on_map(addr: (usize, usize), d: Direction)
    requires
        on_map(addr),
    ensures
        on_map(step(addr, d)),
{
}

/// A step that the map allows from a room of the map can be undone: from where it leads, the
/// opposite step is allowed and leads back.
pub proof fn step_round_trip(addr: (usize, usize), d: Direction)
    requires
        on_map(addr),
        can_move(addr, d),
    ensures
        can_move(step(addr, d), opposite(d)),
        step(step(addr, d), opposite(d)) == addr,
        opposite(opposite(d)) == d,
{
}

/// Whether a row takes a step this tick: it has a step, a name and a place.
pub open spec fn mover(r: RowView) -> bool {
    &&& r.moving is Some
    &&& r.name is Some
    &&& r.location is Some
}

/// Where a mover stands.
pub open spec fn origin(m: RowView) -> (usize, usize) {
    m.location.unwrap().address
}

/// What the players left behind read when a mover with this name leaves.
pub open spec fn exit_words(name: Seq<char>, is_player: bool, d: Direction) -> Seq<char> {
    if is_player {
        name + " exits to the "@ + direction_word(d) + "\n"@
    } else {
        spec_pronoun(name) + " "@ + name + " exits to the "@ + direction_word(d) + "\n"@
    }
}

/// What the players in the room reached read when a mover with this name
/// arrives. A player is announced with the direction of its step, any
/// other mover with the direction it came from.
pub open spec fn enter_words(name: Seq<char>, is_player: bool, d: Direction) -> Seq<char> {
    if is_player {
        name + " enters from the "@ + direction_word(d) + "\n"@
    } else {
        spec_pronoun(name) + " "@ + name + " enters from the "@ + direction_word(opposite(d)) + "\n"@
    }
}

/// A character that is not a player is announced, in the room it
/// reaches, as entering from the side where the room it left lies: from
/// `back`, the direction whose step from the room reached leads back.
pub proof fn npc_arrival_names_the_room_left(name: Seq<char>, addr: (usize, usize), d: Direction, back: Direction)
    requires
        on_map(addr),
        can_move(addr, d),
        step(step(addr, d), back) == addr,
    ensures
        enter_words(name, false, d) == spec_pronoun(name) + " "@ + name + " enters from the "@ + direction_word(back)
            + "\n"@,
        back == match d {
            Direction::N => Direction::S,
            Direction::S => Direction::N,
            Direction::E => Direction::W,
            Direction::W => Direction::E,
        },
        direction_word(back) == match d {
            Direction::N => "south"@,
            Direction::S => "north"@,
            Direction::E => "west"@,
            Direction::W => "east"@,
        },
{
}

/// The players left behind read the direction of the step a mover takes,
/// and a player is announced in the room it reaches with that same
/// direction; a player whose step leaves the map reads that direction too.
pub proof fn step_texts_name_the_step(name: Seq<char>, d: Direction)
    ensures
        direction_word(d) == match d {
            Direction::N => "north"@,
            Direction::S => "south"@,
            Direction::E => "east"@,
            Direction::W => "west"@,
        },
        exit_words(name, true, d) == name + " exits to the "@ + direction_word(d) + "\n"@,
        exit_words(name, false, d) == spec_pronoun(name) + " "@ + name + " exits to the "@ + direction_word(d) + "\n"@,
        enter_words(name, true, d) == name + " enters from the "@ + direction_word(d) + "\n"@,
        no_exit_text(d) == "There is no exit to the "@ + direction_word(d) + "\n"@,
{
}

/// What the players left behind read when a mover leaves.
pub open spec fn exit_text(m: RowView) -> Seq<char> {
    exit_words(m.name.unwrap(), m.player is Some, m.moving.unwrap())
}

/// What the players in the room reached read when a mover arrives.
pub open spec fn enter_text(m: RowView) -> Seq<char> {
    enter_words(m.name.unwrap(), m.player is Some, m.moving.unwrap())
}

/// What a player who cannot take its step reads.
pub open spec fn no_exit_text(d: Direction) -> Seq<char> {
    "There is no exit to the "@ + direction_word(d) + "\n"@
}

/// The messages to the players of `all`, other than the entity with key
/// `key`, that stand in the room left (`exit_t`) or the room reached
/// (`enter_t`), in store order.
pub open spec fn watchers(
    all: Seq<RowView>,
    key: (u32, i32),
    from: (usize, usize),
    to: (usize, usize),
    exit_t: Seq<char>,
    enter_t: Seq<char>,
) -> Seq<(u128, Seq<char>)>
    decreases all.len(),
{
    if all.len() == 0 {
        Seq::empty()
    } else {
        let p = all.last();
        watchers(all.drop_last(), key, from, to, exit_t, enter_t) + (if p.player is Some && p.key != key {
            if stands_at(p, from) {
                seq![(p.player.unwrap(), exit_t)]
            } else if stands_at(p, to) {
                seq![(p.player.unwrap(), enter_t)]
            } else {
                Seq::empty()
            }
        } else {
            Seq::empty()
        })
    }
}

/// The messages that one mover's step causes.
pub open spec fn step_messages(all: Seq<RowView>, m: RowView) -> Seq<(u128, Seq<char>)> {
    let d = m.moving.unwrap();
    if can_move(origin(m), d) {
        watchers(
            all,
            m.key,
            origin(m),
            step(origin(m), d),
            wrapped(exit_text(m), TERMWIDTH),
            wrapped(enter_text(m), TERMWIDTH),
        )
    } else if m.player is Some {
        seq![(m.player.unwrap(), wrapped(no_exit_text(d), TERMWIDTH))]
    } else {
        Seq::empty()
    }
}

/// The messages that the steps of the movers among `movers` cause, mover
/// by mover in store order.
pub open spec fn departure_messages(movers: Seq<RowView>, all: Seq<RowView>) -> Seq<(u128, Seq<char>)>
    decreases movers.len(),
{
    if movers.len() == 0 {
        Seq::empty()
    } else {
        let m = movers.last();
        departure_messages(movers.drop_last(), all) + (if mover(m) {
            step_messages(all, m)
        } else {
            Seq::empty()
        })
    }
}

/// The moves to carry out, in store order: for each mover whose step the
/// map allows, its key, the room it reaches and its player connection.
pub open spec fn move_targets(rows: Seq<RowView>) -> Seq<((u32, i32), Location, Option<u128>)>
    decreases rows.len(),
{
    if rows.len() == 0 {
        Seq::empty()
    } else {
        let m = rows.last();
        let d = m.moving.unwrap();
        let dest = step(origin(m), d);
        move_targets(rows.drop_last()) + (if mover(m) && can_move(origin(m), d) {
            seq![(m.key, spec_map_location(dest.0, dest.1), m.player)]
        } else {
            Seq::empty()
        })
    }
}

/// The rows after the first `k` moves.
pub open spec fn relocated(rows: Seq<RowView>, targets: Seq<((u32, i32), Location, Option<u128>)>, k: int) -> Seq<
    RowView,
>
    decreases k,
{
    if k <= 0 {
        rows
    } else {
        rows_with_location(relocated(rows, targets, k - 1), targets[k - 1].0, targets[k - 1].1)
    }
}

/// What the players among the first `k` moves read on arriving: the room
/// they reach, as it is once they stand in it.
pub open spec fn arrival_messages(
    rows: Seq<RowView>,
    targets: Seq<((u32, i32), Location, Option<u128>)>,
    k: int,
) -> Seq<(u128, Seq<char>)>
    decreases k,
{
    if k <= 0 {
        Seq::empty()
    } else {
        let t = targets[k - 1];
        arrival_messages(rows, targets, k - 1) + (if t.2 is Some {
            seq![(t.2.unwrap(), room_text(relocated(rows, targets, k), t.0, t.1))]
        } else {
            Seq::empty()
        })
    }
}

/// A row with its step taken away.
pub open spec fn halted(r: RowView) -> RowView {
    RowView { moving: None, ..r }
}

/// The rows with every step taken away.
pub open spec fn all_halted(rows: Seq<RowView>) -> Seq<RowView> {
    rows.map_values(|r: RowView| halted(r))
}

/// The rows once every step of this tick is carried out.
pub open spec fn moved(rows: Seq<RowView>) -> Seq<RowView> {
    all_halted(relocated(rows, move_targets(rows), move_targets(rows).len() as int))
}

/// The messages that the steps of this tick cause: departures and
/// refusals first, then what each arriving player sees.
pub open spec fn move_messages(rows: Seq<RowView>) -> Seq<(u128, Seq<char>)> {
    departure_messages(rows, rows) + arrival_messages(rows, move_targets(rows), move_targets(rows).len() as int)
}

/// The keys of the moves.
pub open spec fn targets_view(t: Seq<(specs::Entity, Location, Option<u128>)>) -> Seq<((u32, i32), Location, Option<u128>)> {
    t.map_values(|x: (specs::Entity, Location, Option<u128>)| (entity_key(x.0), x.1, x.2))
}

/// Moves only change rooms: the keys and all else stay, and rooms on the
/// map stay on the map when the moves lead to rooms of the map.
proof fn lemma_relocated(rows: Seq<RowView>, targets: Seq<((u32, i32), Location, Option<u128>)>, k: int)
    requires
        0 <= k <= targets.len(),
    ensures
        relocated(rows, targets, k).len() == rows.len(),
        forall|j: int| 0 <= j < rows.len() ==> (#[trigger] relocated(rows, targets, k)[j]).key == rows[j].key,
        forall|j: int| 0 <= j < rows.len() ==> (#[trigger] relocated(rows, targets, k)[j]).player == rows[j].player,
        forall|j: int| 0 <= j < rows.len() ==> (#[trigger] relocated(rows, targets, k)[j]).moving == rows[j].moving,
        forall|j: int| 0 <= j < rows.len() ==> (#[trigger] relocated(rows, targets, k)[j]).name == rows[j].name,
        (world_wf(rows) && forall|t: int| 0 <= t < k ==> on_map((#[trigger] targets[t]).1.address))
            ==> world_wf(relocated(rows, targets, k)),
    decreases k,
{
    if k > 0 {
        lemma_relocated(rows, targets, k - 1);
        let prev = relocated(rows, targets, k - 1);
        let cur = relocated(rows, targets, k);
        assert(cur == rows_with_location(prev, targets[k - 1].0, targets[k - 1].1));
        if world_wf(rows) && forall|t: int| 0 <= t < k ==> on_map((#[trigger] targets[t]).1.address) {
            assert(on_map(targets[k - 1].1.address));
            assert(world_wf(prev));
            assert forall|j: int| 0 <= j < cur.len() implies #[trigger] row_wf(cur[j]) by {
                assert(row_wf(prev[j]));
            }
        }
    }
}

/// Appends the messages to the players who see a mover leave or arrive.
fn push_watchers(
    out: &mut Vec<Outgoing>,
    rows: &Vec<EntityRow>,
    who: specs::Entity,
    from: (usize, usize),
    to: (usize, usize),
    exit_t: &String,
    enter_t: &String,
)
    ensures
        msgs_view(final(out)@) == msgs_view(old(out)@) + watchers(
            rows_view(rows@),
            entity_key(who),
            from,
            to,
            exit_t@,
            enter_t@,
        ),
{
    let ghost v = rows_view(rows@);
    let ghost start = msgs_view(out@);
    let mut i: usize = 0;
    while i < rows.len()
        invariant
            v == rows_view(rows@),
            i <= rows@.len(),
            msgs_view(out@) == start + watchers(v.take(i as int), entity_key(who), from, to, exit_t@, enter_t@),
        decreases rows@.len() - i,
    {
        let p = &rows[i];
        proof {
            assert(v.take(i + 1).drop_last() =~= v.take(i as int));
            assert(v.take(i + 1).last() == p@);
        }
        match p.player {
            Some(to_player) => {
                if !same_entity(p.entity, who) {
                    if row_at(p, from) {
                        let ghost prev = out@;
                        out.push(Outgoing { to: to_player, text: exit_t.clone() });
                        assert(msgs_view(out@) =~= msgs_view(prev).push((to_player, exit_t@)));
                    } else if row_at(p, to) {
                        let ghost prev = out@;
                        out.push(Outgoing { to: to_player, text: enter_t.clone() });
                        assert(msgs_view(out@) =~= msgs_view(prev).push((to_player, enter_t@)));
                    }
                }
            },
            None => {},
        }
        i = i + 1;
    }
    assert(v.take(rows@.len() as int) =~= v);
}

/// The word for a direction.
pub fn direction_name(d: &Direction) -> (r: &'static str)
    ensures
        r@ == direction_word(*d),
{
    match d {
        Direction::N => "north",
        Direction::S => "south",
        Direction::E => "east",
        Direction::W => "west",
    }
}

/// The direction that leads back.
pub fn opposite_of(d: &Direction) -> (r: Direction)
    ensures
        r == opposite(*d),
{
    match d {
        Direction::N => Direction::S,
        Direction::S => Direction::N,
        Direction::E => Direction::W,
        Direction::W => Direction::E,
    }
}

/// Builds the text that the players left behind read.
fn build_exit_text(name: &String, is_player: bool, d: Direction) -> (r: String)
    requires
        !is_player ==> name@.len() > 0,
    ensures
        r@ == exit_words(name@, is_player, d),
{
    let mut t = String::new();
    if !is_player {
        t.append(pronoun(name));
        t.append(" ");
    }
    t.append(name.as_str());
    t.append(" exits to the ");
    t.append(direction_name(&d));
    t.append("\n");
    t
}

/// Builds the text that the players in the room reached read.
fn build_enter_text(name: &String, is_player: bool, d: Direction) -> (r: String)
    requires
        !is_player ==> name@.len() > 0,
    ensures
        r@ == enter_words(name@, is_player, d),
{
    let mut t = String::new();
    if !is_player {
        t.append(pronoun(name));
        t.append(" ");
    }
    t.append(name.as_str());
    t.append(" enters from the ");
    if is_player {
        t.append(direction_name(&d));
    } else {
        t.append(direction_name(&opposite_of(&d)));
    }
    t.append("\n");
    t
}

/// Carries out every step taken this tick: tells the players in the rooms
/// left and reached, tells a player whose step the map refuses, moves the
/// movers, shows each arriving player its new room, and clears all steps.
pub struct MoveSystem {}

impl MoveSystem {
    /// Carries out the steps of this tick (see `moved` and `move_messages`).
    pub fn run(&mut self, ecs: &mut specs::World) -> (out: Vec<Outgoing>)
        requires
            ecs_ready(*old(ecs)),
            world_wf(ecs_rows(*old(ecs))),
        ensures
            ecs_issued(*final(ecs)) == ecs_issued(*old(ecs)),
            ecs_ready(*final(ecs)),
            world_wf(ecs_rows(*final(ecs))),
            ecs_rows(*final(ecs)) == moved(ecs_rows(*old(ecs))),
            msgs_view(out@) == move_messages(ecs_rows(*old(ecs))),
    {
        let rows = snapshot(ecs);
        let ghost v = rows_view(rows@);
        let mut out: Vec<Outgoing> = Vec::new();
        let mut targets: Vec<(specs::Entity, Location, Option<u128>)> = Vec::new();
        let mut i: usize = 0;
        while i < rows.len()
            invariant
                v == rows_view(rows@),
                v == ecs_rows(*ecs),
                ecs_ready(*ecs),
                ecs_issued(*ecs) == ecs_issued(*old(ecs)),
                world_wf(v),
                i <= rows@.len(),
                msgs_view(out@) == departure_messages(v.take(i as int), v),
                targets_view(targets@) == move_targets(v.take(i as int)),
                forall|t: int| 0 <= t < targets@.len() ==> exists|j: int| 0 <= j < v.len() && v[j].key == entity_key((#[trigger] targets@[t]).0),
                forall|t: int| 0 <= t < targets@.len() ==> on_map((#[trigger] targets@[t]).1.address),
            decreases rows@.len() - i,
        {
            let r = &rows[i];
            proof {
                assert(v.take(i + 1).drop_last() =~= v.take(i as int));
                assert(v.take(i + 1).last() == r@);
                assert(row_wf(v[i as int]));
            }
            match (&r.moving, &r.name, &r.location) {
                (Some(d), Some(name), Some(loc)) => {
                    let (can, new_addr, to, _from) = bounds_check(loc.address, d);
                    if can {
                        let et = build_exit_text(name, r.player.is_some(), *d);
                        let exit_t = fill(et.as_str(), TERMWIDTH);
                        let nt = build_enter_text(name, r.player.is_some(), *d);
                        let enter_t = fill(nt.as_str(), TERMWIDTH);
                        push_watchers(&mut out, &rows, r.entity, loc.address, new_addr, &exit_t, &enter_t);
                        proof {
                            step_stays_on_map(loc.address, *d);
                        }
                        let dest = map_location(new_addr.0, new_addr.1);
                        let ghost prev = targets@;
                        targets.push((r.entity, dest, r.player));
                        proof {
                            assert(targets_view(targets@) =~= targets_view(prev).push((entity_key(r.entity), dest, r.player)));
                            assert(v[i as int].key == entity_key(r.entity));
                        }
                    } else {
                        match r.player {
                            Some(pid) => {
                                let mut t = String::new();
                                t.append("There is no exit to the ");
                                t.append(to);
                                t.append("\n");
                                let text = fill(t.as_str(), TERMWIDTH);
                                let ghost prev = out@;
                                out.push(Outgoing { to: pid, text });
                                assert(msgs_view(out@) =~= msgs_view(prev).push((pid, text@)));
                            },
                            None => {},
                        }
                    }
                },
                _ => {},
            }
            i = i + 1;
        }
        assert(v.take(rows@.len() as int) =~= v);
        let ghost tv = targets_view(targets@);
        let ghost departures = msgs_view(out@);
        // remove old location component and add new location component
        let mut k: usize = 0;
        while k < targets.len()
            invariant
                tv == targets_view(targets@),
                tv == move_targets(v),
                ecs_ready(*ecs),
                ecs_issued(*ecs) == ecs_issued(*old(ecs)),
                world_wf(v),
                k <= targets@.len(),
                ecs_rows(*ecs) == relocated(v, tv, k as int),
                msgs_view(out@) == departures + arrival_messages(v, tv, k as int),
                forall|t: int| 0 <= t < targets@.len() ==> exists|j: int| 0 <= j < v.len() && v[j].key == entity_key((#[trigger] targets@[t]).0),
                forall|t: int| 0 <= t < targets@.len() ==> on_map((#[trigger] targets@[t]).1.address),
            decreases targets@.len() - k,
        {
            let e = targets[k].0;
            let l = targets[k].1;
            let p = targets[k].2;
            proof {
                lemma_relocated(v, tv, k as int);
                let j = choose|j: int| 0 <= j < v.len() && v[j].key == entity_key(targets@[k as int].0);
                assert(relocated(v, tv, k as int)[j].key == entity_key(e));
            }
            relocate(ecs, e, l);
            proof {
                assert(tv[k as int] == (entity_key(e), l, p));
            }
            match p {
                Some(pid) => {
                    let snap = snapshot(ecs);
                    let text = render_room(&snap, e, l);
                    let ghost prev = out@;
                    out.push(Outgoing { to: pid, text });
                    assert(msgs_view(out@) =~= msgs_view(prev).push((pid, text@)));
                },
                None => {},
            }
            k = k + 1;
        }
        // remove moving components
        let rows2 = snapshot(ecs);
        let ghost w = rows_view(rows2@);
        proof {
            lemma_relocated(v, tv, tv.len() as int);
        }
        let mut k: usize = 0;
        while k < rows2.len()
            invariant
                w == rows_view(rows2@),
                ascending(w),
                world_wf(w),
                k <= rows2@.len(),
                ecs_ready(*ecs),
                ecs_issued(*ecs) == ecs_issued(*old(ecs)),
                ecs_rows(*ecs) == Seq::new(w.len(), |j: int| if j < k { halted(w[j]) } else { w[j] }),
            decreases rows2@.len() - k,
        {
            let r = &rows2[k];
            if r.moving.is_some() {
                remove_moving(ecs, r.entity);
                proof {
                    assert(rows2@[k as int]@.key == entity_key(r.entity));
                    assert(ecs_rows(*ecs) =~= Seq::new(w.len(), |j: int| if j < k + 1 { halted(w[j]) } else { w[j] }));
                }
            } else {
                proof {
                    assert(halted(w[k as int]) == w[k as int]);
                    assert(ecs_rows(*ecs) =~= Seq::new(w.len(), |j: int| if j < k + 1 { halted(w[j]) } else { w[j] }));
                }
            }
            k = k + 1;
        }
        assert(ecs_rows(*ecs) =~= all_halted(w));
        proof {
            assert forall|j: int| 0 <= j < w.len() implies #[trigger] row_wf(all_halted(w)[j]) by {
                assert(row_wf(w[j]));
            }
        }
        out
    }
}

} // verus!

verus! {

/// Whether a row takes a step that the map allows.
pub open spec fn moves_on(r: RowView) -> bool {
    mover(r) && can_move(origin(r), r.moving.unwrap())
}

/// The move that a row that moves on makes.
pub open spec fn target_of(r: RowView) -> ((u32, i32), Location, Option<u128>) {
    let dest = step(origin(r), r.moving.unwrap());
    (r.key, spec_map_location(dest.0, dest.1), r.player)
}

/// A row that moves on, standing where its step leads.
pub open spec fn moved_row(r: RowView) -> RowView {
    RowView { location: Some(target_of(r).1), ..r }
}

/// The rows once the first `i` of them that move on have moved.
pub open spec fn partly_moved(rows: Seq<RowView>, i: int) -> Seq<RowView> {
    Seq::new(rows.len(), |j: int| if j < i && moves_on(rows[j]) { moved_row(rows[j]) } else { rows[j] })
}

/// The moves of a list are those of its first `i` rows, then those of
/// the rest.
proof fn lemma_move_targets_split(rows: Seq<RowView>, i: int)
    requires
        0 <= i <= rows.len(),
    ensures
        move_targets(rows) == move_targets(rows.take(i)) + move_targets(rows.skip(i)),
    decreases rows.len(),
{
    if i == rows.len() {
        assert(rows.take(i) =~= rows);
        assert(rows.skip(i) =~= Seq::<RowView>::empty());
        assert(move_targets(rows.skip(i)) =~= Seq::empty());
        assert(move_targets(rows) =~= move_targets(rows.take(i)) + move_targets(rows.skip(i)));
    } else {
        let p = rows.drop_last();
        lemma_move_targets_split(p, i);
        assert(p.take(i) =~= rows.take(i));
        assert(p.skip(i) =~= rows.skip(i).drop_last());
        assert(rows.skip(i).last() == rows.last());
        assert(move_targets(rows) =~= move_targets(rows.take(i)) + move_targets(rows.skip(i)));
    }
}

/// Carrying out the moves of the first `i` rows moves those rows and no
/// others.
proof fn lemma_partly_moved(rows: Seq<RowView>, i: int)
    requires
        ascending(rows),
        0 <= i <= rows.len(),
    ensures
        move_targets(rows.take(i)).len() <= move_targets(rows).len(),
        relocated(rows, move_targets(rows), move_targets(rows.take(i)).len() as int) == partly_moved(rows, i),
    decreases i,
{
    let t = move_targets(rows);
    lemma_move_targets_split(rows, i);
    if i == 0 {
        assert(rows.take(0) =~= Seq::<RowView>::empty());
        assert(partly_moved(rows, 0) =~= rows);
    } else {
        lemma_partly_moved(rows, i - 1);
        let a = move_targets(rows.take(i - 1)).len() as int;
        assert(rows.take(i).drop_last() =~= rows.take(i - 1));
        assert(rows.take(i).last() == rows[i - 1]);
        let prev = relocated(rows, t, a);
        if moves_on(rows[i - 1]) {
            assert(move_targets(rows.take(i)) == move_targets(rows.take(i - 1)).push(target_of(rows[i - 1])));
            assert(t[a] == move_targets(rows.take(i))[a]);
            assert(t[a] == target_of(rows[i - 1]));
            assert(relocated(rows, t, a + 1) == rows_with_location(prev, t[a].0, t[a].1));
            assert(relocated(rows, t, a + 1) =~= partly_moved(rows, i)) by {
                assert forall|j: int| 0 <= j < rows.len() implies rows_with_location(prev, t[a].0, t[a].1)[j] == partly_moved(rows, i)[j] by {
                    assert(prev[j] == partly_moved(rows, i - 1)[j]);
                    if j < i - 1 {
                        assert(rows[j].key.0 < rows[i - 1].key.0);
                    } else if j > i - 1 {
                        assert(rows[i - 1].key.0 < rows[j].key.0);
                    }
                }
            }
        } else {
            assert(move_targets(rows.take(i)) =~= move_targets(rows.take(i - 1)));
            assert(partly_moved(rows, i) =~= partly_moved(rows, i - 1));
        }
    }
}

/// Where the movement of a tick leaves each entity: every step is used
/// up; an entity whose step the map allows stands in the room that
/// `bounds_check` leads to; every other entity stays where it was; and
/// nothing else about any entity changes.
pub proof fn moved_positions(rows: Seq<RowView>, j: int)
    requires
        ascending(rows),
        0 <= j < rows.len(),
    ensures
        moved(rows).len() == rows.len(),
        moved(rows)[j] == (if moves_on(rows[j]) { halted(moved_row(rows[j])) } else { halted(rows[j]) }),
        moves_on(rows[j]) ==> moved(rows)[j].location == Some(spec_map_location(
            step(origin(rows[j]), rows[j].moving.unwrap()).0,
            step(origin(rows[j]), rows[j].moving.unwrap()).1,
        )),
        !moves_on(rows[j]) ==> moved(rows)[j].location == rows[j].location,
        moved(rows)[j].moving is None,
{
    lemma_partly_moved(rows, rows.len() as int);
    assert(rows.take(rows.len() as int) =~= rows);
}

} // verus!

verus! {

/// Whether a player reached through `id`, other than the entity with key
/// `key`, stands in the room at `at`.
pub open spec fn player_stands_at(all: Seq<RowView>, key: (u32, i32), at: (usize, usize), id: u128) -> bool {
    exists|j: int| 0 <= j < all.len() && all[j].player == Some(id) && all[j].key != key && stands_at(all[j], at)
}

/// News of a step reaches only players, other than the mover, who stand
/// in the room left (and they read the exit text) or in the room reached
/// (and they read the entry text).
pub proof fn watchers_stand_in_either_room(
    all: Seq<RowView>,
    key: (u32, i32),
    from: (usize, usize),
    to: (usize, usize),
    exit_t: Seq<char>,
    enter_t: Seq<char>,
)
    ensures
        forall|i: int|
            0 <= i < watchers(all, key, from, to, exit_t, enter_t).len() ==> {
                let m = #[trigger] watchers(all, key, from, to, exit_t, enter_t)[i];
                ||| m.1 == exit_t && player_stands_at(all, key, from, m.0)
                ||| m.1 == enter_t && player_stands_at(all, key, to, m.0)
            },
    decreases all.len(),
{
    if all.len() > 0 {
        let p = all.drop_last();
        watchers_stand_in_either_room(p, key, from, to, exit_t, enter_t);
        let w = watchers(all, key, from, to, exit_t, enter_t);
        let wp = watchers(p, key, from, to, exit_t, enter_t);
        assert forall|i: int| 0 <= i < w.len() implies {
            let m = #[trigger] w[i];
            ||| m.1 == exit_t && player_stands_at(all, key, from, m.0)
            ||| m.1 == enter_t && player_stands_at(all, key, to, m.0)
        } by {
            if i < wp.len() {
                assert(w[i] == wp[i]);
                if wp[i].1 == exit_t && player_stands_at(p, key, from, wp[i].0) {
                    let j = choose|j: int| 0 <= j < p.len() && p[j].player == Some(wp[i].0) && p[j].key != key && stands_at(p[j], from);
                    assert(all[j] == p[j]);
                } else {
                    let j = choose|j: int| 0 <= j < p.len() && p[j].player == Some(wp[i].0) && p[j].key != key && stands_at(p[j], to);
                    assert(all[j] == p[j]);
                }
            } else {
                assert(all[all.len() - 1] == all.last());
            }
        }
    }
}

} // verus!
