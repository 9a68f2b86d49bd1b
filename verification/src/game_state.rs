//! The state of the game: the entity store and the map from connections
//! to player entities, with the operations that the commands use.

use std::collections::HashMap;

use vstd::prelude::*;
use vstd::string::StringExecFns;

use crate::aggression::{mischief_by_draws, AggressionSystem};
use crate::dice::Draw;
use crate::channel::ChannelPayload;
use crate::communication::{all_hushed, hushed, speech_messages, CommSystem};
use crate::components::{map_location, spec_map_location, Location};
use crate::ecs::{ecs_issued, gens_below, maintain};
use crate::movement::{move_messages, moved, MoveSystem};
use crate::npc_manager::{spawn_npcs, spawned_row, NPC_COUNT};
use crate::player_input::{input_ok, input_outcome, join_room, player_input_system};
use crate::constants::{Direction, TERMWIDTH};
use crate::ecs::{
    ascending, create_player, delete_entity, ecs_ready, ecs_rows, entity_key, find_row, has_key,
    insert_moving, insert_speaking, inserted_somewhere, lemma_row_of, new_world, player_row,
    row_of, row_wf, rows_view, rows_with_moving, rows_with_speaking, rows_without, snapshot,
    world_wf, RowView,
};
use crate::message::{msgs_view, notify_room, push_notify_room, Outgoing};
use crate::room::{render_room, room_text};
use crate::text::{fill, owned, wrapped};

verus! {

broadcast use vstd::std_specs::hash::group_hash_axioms;

/// The game: every entity with its components, and for every connection
/// the entity of the player who joined through it.
pub struct GameState {
    pub ecs: specs::World,
    pub players: HashMap<u128, specs::Entity>,
}

/// What a player who joins reads in the other players' terminals.
pub open spec fn arrival_text(name: Seq<char>) -> Seq<char> {
    name + " has arrived in Lera\n"@
}

/// What the players left in a room read when a player quits.
pub open spec fn departure_text(name: Seq<char>) -> Seq<char> {
    name + " has left the land of Lera\n"@
}

/// How the systems of a tick change the game (`before` to `after`) and
/// what they send (`msgs`): speech is delivered and cleared, then steps
/// are taken and cleared, then every aggressive character draws its dice
/// and does what they decide.
pub open spec fn systems_outcome(before: GameState, after: GameState, msgs: Seq<(u128, Seq<char>)>) -> bool {
    let hushed_rows = all_hushed(before.rows());
    &&& after.players == before.players
    &&& msgs =~= speech_messages(before.rows(), before.rows()) + move_messages(hushed_rows)
    &&& exists|draws: Seq<Seq<Draw>>| #[trigger] mischief_by_draws(moved(hushed_rows), after.rows(), draws)
}

/// The connection clauses of `wf` carry over to a state with the same
/// connections whose store has handed out at least the same keys.
pub proof fn lemma_players_carry_over(before: GameState, after: GameState)
    requires
        before.wf(),
        after.players == before.players,
        ecs_issued(before.ecs).subset_of(ecs_issued(after.ecs)),
    ensures
        forall|id: u128| after.players@.contains_key(id) ==> ecs_issued(after.ecs).contains(#[trigger] after.key_of(id)),
        forall|a: u128, b: u128|
            after.players@.contains_key(a) && after.players@.contains_key(b) && a != b ==> #[trigger] after.key_of(a)
                != #[trigger] after.key_of(b),
{
    assert forall|id: u128| after.players@.contains_key(id) implies ecs_issued(after.ecs).contains(#[trigger] after.key_of(id)) by {
        assert(after.key_of(id) == before.key_of(id));
        assert(ecs_issued(before.ecs).contains(before.key_of(id)));
    }
    assert forall|a: u128, b: u128|
        after.players@.contains_key(a) && after.players@.contains_key(b) && a != b implies #[trigger] after.key_of(a)
            != #[trigger] after.key_of(b) by {
        assert(after.key_of(a) == before.key_of(a));
        assert(after.key_of(b) == before.key_of(b));
    }
}

/// What showing the player of connection `id` its room does: nothing
/// changes, and the player reads the room it stands in.
pub open spec fn look_outcome(before: GameState, id: u128, after: GameState, msgs: Seq<(u128, Seq<char>)>) -> bool {
    &&& after == before
    &&& msgs =~= seq![(
        before.player_row_of(id).player.unwrap(),
        room_text(before.rows(), before.key_of(id), before.player_row_of(id).location.unwrap()),
    )]
}

/// What taking the player of connection `id` out of the game does: its
/// entity goes, the connection stays mapped, and the players left in its
/// room read that it left.
pub open spec fn quit_outcome(before: GameState, id: u128, after: GameState, msgs: Seq<(u128, Seq<char>)>) -> bool {
    &&& after.players == before.players
    &&& after.rows() == rows_without(before.rows(), before.key_of(id))
    &&& msgs =~= notify_room(
        after.rows(),
        before.player_row_of(id).location.unwrap().address,
        before.key_of(id),
        wrapped(departure_text(before.player_row_of(id).name.unwrap()), TERMWIDTH),
    )
}

/// What joining a player named `name` through connection `id` does: a
/// fresh player entity in the room at (0, 0), mapped from `id`, announced
/// to the players already there.
pub open spec fn join_outcome(
    before: GameState,
    id: u128,
    name: Seq<char>,
    after: GameState,
    msgs: Seq<(u128, Seq<char>)>,
) -> bool {
    &&& after.players@ == before.players@.insert(id, after.players@[id])
    &&& !has_key(before.rows(), after.key_of(id))
    &&& inserted_somewhere(before.rows(), after.rows(), player_row(after.key_of(id), id, name, spec_map_location(0, 0)))
    &&& msgs =~= notify_room(after.rows(), (0, 0), after.key_of(id), wrapped(arrival_text(name), TERMWIDTH))
    &&& after.live_player(id)
    &&& after.player_row_of(id) == player_row(after.key_of(id), id, name, spec_map_location(0, 0))
}

/// Whether `after`'s store has handed out every key that `before`'s had,
/// and its generations grew by at most `n`: a bound on `before`'s
/// generations, raised by `n`, bounds `after`'s.
pub open spec fn issued_within(before: GameState, after: GameState, n: int) -> bool {
    &&& ecs_issued(before.ecs).subset_of(ecs_issued(after.ecs))
    &&& forall|b: int| b >= 1 && gens_below(ecs_issued(before.ecs), b) ==> gens_below(ecs_issued(after.ecs), b + n)
}

impl GameState {
    /// The live entities, in store order.
    pub open spec fn rows(&self) -> Seq<RowView> {
        ecs_rows(self.ecs)
    }

    /// What the state keeps true between operations: the store is ready,
    /// its entities keep `row_wf`, and every connection is mapped to an
    /// entity the store handed out, no two connections to the same one.
    pub open spec fn wf(&self) -> bool {
        &&& ecs_ready(self.ecs)
        &&& world_wf(self.rows())
        &&& forall|id: u128| self.players@.contains_key(id) ==> ecs_issued(self.ecs).contains(#[trigger] self.key_of(id))
        &&& forall|a: u128, b: u128|
            self.players@.contains_key(a) && self.players@.contains_key(b) && a != b ==> #[trigger] self.key_of(a)
                != #[trigger] self.key_of(b)
    }

    /// Whether the store can hand out `n` more entities without a
    /// generation passing `i32::MAX`.
    pub open spec fn room_to_allocate(&self, n: int) -> bool {
        gens_below(ecs_issued(self.ecs), 2147483647 - n)
    }

    /// The key of the entity that joined through connection `id`.
    pub open spec fn key_of(&self, id: u128) -> (u32, i32) {
        entity_key(self.players@[id])
    }

    /// The row of the entity that joined through connection `id`.
    pub open spec fn player_row_of(&self, id: u128) -> RowView {
        row_of(self.rows(), self.key_of(id))
    }

    /// Whether a player joined through `id` and its entity is alive.
    pub open spec fn joined_alive(&self, id: u128) -> bool {
        &&& self.players@.contains_key(id)
        &&& has_key(self.rows(), self.key_of(id))
    }

    /// Whether the entity of connection `id` is alive and can be written
    /// to (it has a player component).
    pub open spec fn reachable(&self, id: u128) -> bool {
        &&& self.joined_alive(id)
        &&& self.player_row_of(id).player is Some
    }

    /// Whether the entity of connection `id` is alive with a player
    /// component, a name and a place.
    pub open spec fn live_player(&self, id: u128) -> bool {
        &&& self.reachable(id)
        &&& self.player_row_of(id).name is Some
        &&& self.player_row_of(id).location is Some
    }

    /// An empty game: no entities, no players.
    pub fn new() -> (gs: GameState)
        ensures
            gs.wf(),
            gs.rows() == Seq::<RowView>::empty(),
            gs.players@ == Map::<u128, specs::Entity>::empty(),
            ecs_issued(gs.ecs) == Set::<(u32, i32)>::empty(),
    {
        GameState { ecs: new_world(), players: HashMap::new() }
    }

    /// The entity of the player who joined through connection `id`.
    pub fn get_player_eid(&mut self, id: u128) -> (e: specs::Entity)
        requires
            old(self).players@.contains_key(id),
        ensures
            e == old(self).players@[id],
            *final(self) == *old(self),
    {
        *self.players.get(&id).unwrap()
    }

    /// Finds the row of connection `id` in a fresh snapshot.
    fn player_row_index(&self, id: u128, rows: &Vec<crate::ecs::EntityRow>) -> (i: usize)
        requires
            self.joined_alive(id),
            rows_view(rows@) == self.rows(),
            ascending(rows_view(rows@)),
        ensures
            i < rows@.len(),
            rows@[i as int]@ == self.player_row_of(id),
            entity_key(rows@[i as int].entity) == self.key_of(id),
    {
        let e = *self.players.get(&id).unwrap();
        let found = find_row(rows, e);
        match found {
            Some(i) => {
                proof {
                    assert(rows_view(rows@)[i as int] == rows@[i as int]@);
                    lemma_row_of(rows_view(rows@), i as int);
                }
                i
            },
            None => {
                proof {
                    assert(false);
                }
                0
            },
        }
    }

    /// The entity, name, room and connection of the player who joined
    /// through `id` (the connection stands for the player's socket).
    pub fn get_player_data(&mut self, id: u128) -> (r: (specs::Entity, String, Location, u128))
        requires
            old(self).wf(),
            old(self).live_player(id),
        ensures
            *final(self) == *old(self),
            r.0 == old(self).players@[id],
            r.1@ == old(self).player_row_of(id).name.unwrap(),
            r.2 == old(self).player_row_of(id).location.unwrap(),
            r.3 == old(self).player_row_of(id).player.unwrap(),
    {
        let e = *self.players.get(&id).unwrap();
        let rows = snapshot(&self.ecs);
        let i = self.player_row_index(id, &rows);
        let r = &rows[i];
        match (&r.name, r.location, r.player) {
            (Some(n), Some(l), Some(p)) => (e, n.clone(), l, p),
            _ => {
                proof {
                    assert(false);
                }
                (e, String::new(), map_location(0, 0), 0)
            },
        }
    }

    /// A message to the player who joined through `id`, wrapped to the
    /// terminal width.
    pub fn msg_player(&mut self, id: u128, msg: &str) -> (out: Outgoing)
        requires
            old(self).wf(),
            old(self).reachable(id),
        ensures
            *final(self) == *old(self),
            out@ == (old(self).player_row_of(id).player.unwrap(), wrapped(msg@, TERMWIDTH)),
    {
        let rows = snapshot(&self.ecs);
        let i = self.player_row_index(id, &rows);
        let to = match rows[i].player {
            Some(p) => p,
            None => {
                proof {
                    assert(false);
                }
                0
            },
        };
        Outgoing { to, text: fill(msg, TERMWIDTH) }
    }

    /// Shows the player who joined through `id` the room it stands in.
    pub fn print_location(&mut self, id: u128) -> (out: Outgoing)
        requires
            old(self).wf(),
            old(self).live_player(id),
        ensures
            *final(self) == *old(self),
            out@ == (
                old(self).player_row_of(id).player.unwrap(),
                room_text(old(self).rows(), old(self).key_of(id), old(self).player_row_of(id).location.unwrap()),
            ),
            look_outcome(*old(self), id, *final(self), seq![out@]),
    {
        let (eid, _name, current_loc, to) = self.get_player_data(id);
        let rows = snapshot(&self.ecs);
        let text = render_room(&rows, eid, current_loc);
        Outgoing { to, text }
    }

    /// Gives a live entity a step to take in the next movement.
    pub fn add_mover(&mut self, eid: specs::Entity, direction: Direction)
        requires
            old(self).wf(),
            has_key(old(self).rows(), entity_key(eid)),
        ensures
            final(self).wf(),
            final(self).players == old(self).players,
            final(self).rows() == rows_with_moving(old(self).rows(), entity_key(eid), Some(direction)),
            ecs_issued(final(self).ecs) == ecs_issued(old(self).ecs),
    {
        insert_moving(&mut self.ecs, eid, direction);
        proof {
            lemma_players_carry_over(*old(self), *self);
            assert forall|j: int| 0 <= j < self.rows().len() implies #[trigger] row_wf(self.rows()[j]) by {
                assert(row_wf(old(self).rows()[j]));
            }
        }
    }

    /// Gives a live entity something to say in the next round of speech.
    pub fn add_speaker(&mut self, eid: specs::Entity, msg: &str)
        requires
            old(self).wf(),
            has_key(old(self).rows(), entity_key(eid)),
        ensures
            final(self).wf(),
            final(self).players == old(self).players,
            final(self).rows() == rows_with_speaking(old(self).rows(), entity_key(eid), Some(msg@)),
            ecs_issued(final(self).ecs) == ecs_issued(old(self).ecs),
    {
        insert_speaking(&mut self.ecs, eid, owned(msg));
        proof {
            lemma_players_carry_over(*old(self), *self);
            assert forall|j: int| 0 <= j < self.rows().len() implies #[trigger] row_wf(self.rows()[j]) by {
                assert(row_wf(old(self).rows()[j]));
            }
        }
    }

    /// Puts a new player, reached through connection `id`, in the room at
    /// (0, 0), and tells the players already there.
    pub fn join_player(&mut self, id: u128, name: String) -> (out: Vec<Outgoing>)
        requires
            old(self).wf(),
            old(self).rows().len() < 4294967295,
            old(self).room_to_allocate(0),
        ensures
            final(self).wf(),
            final(self).players@ == old(self).players@.insert(id, final(self).players@[id]),
            !has_key(old(self).rows(), final(self).key_of(id)),
            inserted_somewhere(
                old(self).rows(),
                final(self).rows(),
                player_row(final(self).key_of(id), id, name@, spec_map_location(0, 0)),
            ),
            msgs_view(out@) == notify_room(
                final(self).rows(),
                (0, 0),
                final(self).key_of(id),
                wrapped(arrival_text(name@), TERMWIDTH),
            ),
            final(self).live_player(id),
            final(self).player_row_of(id) == player_row(final(self).key_of(id), id, name@, spec_map_location(0, 0)),
            join_outcome(*old(self), id, name@, *final(self), msgs_view(out@)),
            issued_within(*old(self), *final(self), 1),
    {
        let loc = map_location(0, 0);
        let display_name = name.clone();
        let new_player = create_player(&mut self.ecs, id, name, loc);
        self.players.insert(id, new_player);
        let rows = snapshot(&self.ecs);
        let mut f_msg = String::new();
        f_msg.append(display_name.as_str());
        f_msg.append(" has arrived in Lera\n");
        let text = fill(f_msg.as_str(), TERMWIDTH);
        let mut out: Vec<Outgoing> = Vec::new();
        push_notify_room(&mut out, &rows, loc.address, new_player, &text);
        proof {
            let old_rows = old(self).rows();
            let k = choose|k: int| 0 <= k <= old_rows.len() && self.rows() == old_rows.insert(k, player_row(entity_key(new_player), id, name@, loc));
            assert(self.rows()[k] == player_row(entity_key(new_player), id, name@, loc));
            lemma_row_of(self.rows(), k);
            assert(self.players@[id] == new_player);
            let issued_before = ecs_issued(old(self).ecs);
            assert forall|x: u128| self.players@.contains_key(x) implies ecs_issued(self.ecs).contains(#[trigger] self.key_of(x)) by {
                if x != id {
                    assert(old(self).key_of(x) == self.key_of(x));
                    assert(issued_before.contains(old(self).key_of(x)));
                }
            }
            assert forall|a: u128, b: u128|
                self.players@.contains_key(a) && self.players@.contains_key(b) && a != b implies #[trigger] self.key_of(a)
                    != #[trigger] self.key_of(b) by {
                if a == id {
                    assert(issued_before.contains(old(self).key_of(b)));
                    assert(self.key_of(b) == old(self).key_of(b));
                } else if b == id {
                    assert(issued_before.contains(old(self).key_of(a)));
                    assert(self.key_of(a) == old(self).key_of(a));
                } else {
                    assert(self.key_of(a) == old(self).key_of(a));
                    assert(self.key_of(b) == old(self).key_of(b));
                }
            }
            assert forall|j: int| 0 <= j < self.rows().len() implies #[trigger] row_wf(self.rows()[j]) by {
                if j < k {
                    assert(row_wf(old_rows[j]));
                } else if j > k {
                    assert(self.rows()[j] == old_rows[j - 1]);
                    assert(row_wf(old_rows[j - 1]));
                }
            }
        }
        out
    }

    /// Takes the player who joined through `id` out of the game, and tells
    /// the players in its room. The connection stays mapped to the
    /// entity, which is no longer alive.
    pub fn remove_player(&mut self, id: u128) -> (out: Vec<Outgoing>)
        requires
            old(self).wf(),
            old(self).live_player(id),
        ensures
            final(self).wf(),
            final(self).players == old(self).players,
            final(self).rows() == rows_without(old(self).rows(), old(self).key_of(id)),
            !final(self).joined_alive(id),
            msgs_view(out@) == notify_room(
                final(self).rows(),
                old(self).player_row_of(id).location.unwrap().address,
                old(self).key_of(id),
                wrapped(departure_text(old(self).player_row_of(id).name.unwrap()), TERMWIDTH),
            ),
            quit_outcome(*old(self), id, *final(self), msgs_view(out@)),
            ecs_issued(final(self).ecs) == ecs_issued(old(self).ecs),
    {
        let (eid, name, current_loc, _to) = self.get_player_data(id);
        delete_entity(&mut self.ecs, eid);
        let rows = snapshot(&self.ecs);
        let mut f_msg = String::new();
        f_msg.append(name.as_str());
        f_msg.append(" has left the land of Lera\n");
        let text = fill(f_msg.as_str(), TERMWIDTH);
        let mut out: Vec<Outgoing> = Vec::new();
        push_notify_room(&mut out, &rows, current_loc.address, eid, &text);
        proof {
            lemma_players_carry_over(*old(self), *self);
            let old_rows = old(self).rows();
            assert forall|j: int| 0 <= j < self.rows().len() implies #[trigger] row_wf(self.rows()[j]) by {
                let pred = |r: RowView| r.key != entity_key(eid);
                old_rows.lemma_filter_contains_rev(pred, self.rows()[j]);
                assert(old_rows.filter(pred).contains(self.rows()[j]));
            }
            if has_key(self.rows(), self.key_of(id)) {
                let pred = |r: RowView| r.key != entity_key(eid);
                let j = choose|j: int| 0 <= j < self.rows().len() && self.rows()[j].key == self.key_of(id);
                old_rows.lemma_filter_pred(pred, j);
            }
        }
        out
    }

    /// Runs the systems of a tick: speech, movement, aggression; then
    /// lets the store apply pending work.
    pub fn tick_systems(&mut self) -> (out: Vec<Outgoing>)
        requires
            old(self).wf(),
        ensures
            final(self).wf(),
            systems_outcome(*old(self), *final(self), msgs_view(out@)),
            ecs_issued(final(self).ecs) == ecs_issued(old(self).ecs),
    {
        let mut comm = CommSystem {};
        let mut movement = MoveSystem {};
        let mut aggression = AggressionSystem {};
        let ghost r0 = self.rows();
        let mut out = comm.run(&mut self.ecs);
        proof {
            assert forall|j: int| 0 <= j < self.rows().len() implies #[trigger] row_wf(self.rows()[j]) by {
                assert(row_wf(r0[j]));
                assert(self.rows()[j] == hushed(r0[j]));
            }
        }
        let mut moves = movement.run(&mut self.ecs);
        let ghost speech = msgs_view(out@);
        let ghost moving = msgs_view(moves@);
        out.append(&mut moves);
        assert(msgs_view(out@) =~= speech + moving);
        aggression.run(&mut self.ecs);
        maintain(&mut self.ecs);
        proof {
            lemma_players_carry_over(*old(self), *self);
        }
        out
    }

    /// Readies a new game: spawns its characters.
    pub fn init(&mut self)
        requires
            old(self).wf(),
            old(self).rows().len() + NPC_COUNT < 4294967295,
            old(self).room_to_allocate(NPC_COUNT as int),
        ensures
            final(self).wf(),
            final(self).players == old(self).players,
            final(self).rows().len() == old(self).rows().len() + NPC_COUNT,
            forall|j: int| 0 <= j < old(self).rows().len() ==> final(self).rows().contains(#[trigger] old(self).rows()[j]),
            forall|j: int|
                0 <= j < final(self).rows().len() ==> old(self).rows().contains(#[trigger] final(self).rows()[j])
                    || spawned_row(final(self).rows()[j]),
            issued_within(*old(self), *final(self), NPC_COUNT as int),
    {
        spawn_npcs(self);
    }

    /// One turn of the game loop: serves the request that came in, if any,
    /// then runs the systems.
    pub fn tick(&mut self, player_input: Option<ChannelPayload>) -> (out: Vec<Outgoing>)
        requires
            old(self).wf(),
            input_ok(*old(self), player_input),
            join_room(*old(self), player_input),
        ensures
            final(self).wf(),
            exists|mid: GameState, m1: Seq<(u128, Seq<char>)>, m2: Seq<(u128, Seq<char>)>| {
                &&& input_outcome(*old(self), player_input, mid, m1)
                &&& systems_outcome(mid, *final(self), m2)
                &&& msgs_view(out@) == m1 + m2
            },
            issued_within(*old(self), *final(self), 1),
    {
        let mut out = player_input_system(self, player_input);
        let ghost mid = *self;
        let ghost m1 = msgs_view(out@);
        let mut rest = self.tick_systems();
        let ghost m2 = msgs_view(rest@);
        out.append(&mut rest);
        assert(msgs_view(out@) =~= m1 + m2);
        out
    }

    /// What the store says of the player of connection `id`: whether it
    /// joined and is alive, and whether its entity has a player component,
    /// a name and a place.
    fn player_status(&self, id: u128) -> (r: (bool, bool, bool))
        requires
            self.wf(),
        ensures
            r.0 == self.joined_alive(id),
            r.1 == self.reachable(id),
            r.2 == self.live_player(id),
    {
        match self.players.get(&id) {
            None => (false, false, false),
            Some(e) => {
                let rows = snapshot(&self.ecs);
                match find_row(&rows, *e) {
                    None => (false, false, false),
                    Some(i) => {
                        proof {
                            assert(rows_view(rows@)[i as int] == rows@[i as int]@);
                            lemma_row_of(rows_view(rows@), i as int);
                        }
                        let r = &rows[i];
                        (true, r.player.is_some(), r.player.is_some() && r.name.is_some() && r.location.is_some())
                    },
                }
            },
        }
    }

    /// Whether a player joined through `id` and its entity is alive.
    pub fn is_joined_alive(&self, id: u128) -> (r: bool)
        requires
            self.wf(),
        ensures
            r == self.joined_alive(id),
    {
        self.player_status(id).0
    }

    /// Whether the entity of connection `id` is alive with a player
    /// component.
    pub fn is_reachable(&self, id: u128) -> (r: bool)
        requires
            self.wf(),
        ensures
            r == self.reachable(id),
    {
        self.player_status(id).1
    }

    /// Whether the entity of connection `id` is alive with a player
    /// component, a name and a place.
    pub fn is_live_player(&self, id: u128) -> (r: bool)
        requires
            self.wf(),
        ensures
            r == self.live_player(id),
    {
        self.player_status(id).2
    }

    /// The number of live entities.
    pub fn entity_count(&self) -> (n: usize)
        requires
            self.wf(),
        ensures
            n == self.rows().len(),
    {
        snapshot(&self.ecs).len()
    }
}

} // verus!
