//! What a player reads on looking around a room.

use vstd::prelude::*;
use vstd::string::StringExecFns;

use crate::components::Location;
use crate::constants::TERMWIDTH;
use crate::ecs::{entity_key, rows_view, same_entity, EntityRow, RowView};
use crate::message::row_at;
use crate::movement::{exits, exits_text};
use crate::text::{fill, wrapped};

verus! {

/// Whether a row stands in the room at `at`.
pub open spec fn stands_at(r: RowView, at: (usize, usize)) -> bool {
    r.location is Some && r.location.unwrap().address == at
}

/// Whether a row is a named player, other than `viewer`, in the room at `at`.
pub open spec fn other_player_at(r: RowView, at: (usize, usize), viewer: (u32, i32)) -> bool {
    &&& r.player is Some
    &&& r.name is Some
    &&& stands_at(r, at)
    &&& r.key != viewer
}

/// Whether a row is a named non-player character in the room at `at`.
pub open spec fn npc_at(r: RowView, at: (usize, usize)) -> bool {
    &&& r.npc
    &&& r.name is Some
    &&& stands_at(r, at)
}

/// The names, each followed by a space, of the players other than
/// `viewer` in the room at `at`, in store order.
pub open spec fn players_here(rows: Seq<RowView>, at: (usize, usize), viewer: (u32, i32)) -> Seq<char>
    decreases rows.len(),
{
    if rows.len() == 0 {
        Seq::empty()
    } else {
        let r = rows.last();
        players_here(rows.drop_last(), at, viewer) + (if other_player_at(r, at, viewer) {
            r.name.unwrap() + " "@
        } else {
            Seq::empty()
        })
    }
}

/// The names, each followed by a space, of the non-player characters in
/// the room at `at`, in store order.
pub open spec fn npcs_here(rows: Seq<RowView>, at: (usize, usize)) -> Seq<char>
    decreases rows.len(),
{
    if rows.len() == 0 {
        Seq::empty()
    } else {
        let r = rows.last();
        npcs_here(rows.drop_last(), at) + (if npc_at(r, at) {
            r.name.unwrap() + " "@
        } else {
            Seq::empty()
        })
    }
}

/// The text that shows the room `loc` to `viewer`: its description, its
/// exits, the other players there and the non-player characters there.
pub open spec fn room_text(rows: Seq<RowView>, viewer: (u32, i32), loc: Location) -> Seq<char> {
    "\n"@ + wrapped(loc.description@, TERMWIDTH) + "\nExits: "@ + exits_text(loc.address) + "\n"@
        + wrapped(players_here(rows, loc.address, viewer), TERMWIDTH) + wrapped(
        npcs_here(rows, loc.address),
        TERMWIDTH,
    ) + "\n"@
}

/// Lists the other players in the room at `at`.
fn list_players_here(rows: &Vec<EntityRow>, at: (usize, usize), viewer: specs::Entity) -> (r: String)
    ensures
        r@ == players_here(rows_view(rows@), at, entity_key(viewer)),
{
    let ghost v = rows_view(rows@);
    let mut names = String::new();
    let mut i: usize = 0;
    while i < rows.len()
        invariant
            v == rows_view(rows@),
            i <= rows@.len(),
            names@ == players_here(v.take(i as int), at, entity_key(viewer)),
        decreases rows@.len() - i,
    {
        let r = &rows[i];
        proof {
            assert(v.take(i + 1).drop_last() =~= v.take(i as int));
            assert(v.take(i + 1).last() == r@);
        }
        if r.player.is_some() && row_at(r, at) && !same_entity(r.entity, viewer) {
            match &r.name {
                Some(n) => {
                    names.append(n.as_str());
                    names.append(" ");
                },
                None => {},
            }
        }
        i = i + 1;
    }
    assert(v.take(rows@.len() as int) =~= v);
    names
}

/// Lists the non-player characters in the room at `at`.
fn list_npcs_here(rows: &Vec<EntityRow>, at: (usize, usize)) -> (r: String)
    ensures
        r@ == npcs_here(rows_view(rows@), at),
{
    let ghost v = rows_view(rows@);
    let mut names = String::new();
    let mut i: usize = 0;
    while i < rows.len()
        invariant
            v == rows_view(rows@),
            i <= rows@.len(),
            names@ == npcs_here(v.take(i as int), at),
        decreases rows@.len() - i,
    {
        let r = &rows[i];
        proof {
            assert(v.take(i + 1).drop_last() =~= v.take(i as int));
            assert(v.take(i + 1).last() == r@);
        }
        if r.npc && row_at(r, at) {
            match &r.name {
                Some(n) => {
                    names.append(n.as_str());
                    names.append(" ");
                },
                None => {},
            }
        }
        i = i + 1;
    }
    assert(v.take(rows@.len() as int) =~= v);
    names
}

/// Renders the room `loc` as `viewer` sees it.
pub fn render_room(rows: &Vec<EntityRow>, viewer: specs::Entity, loc: Location) -> (r: String)
    ensures
        r@ == room_text(rows_view(rows@), entity_key(viewer), loc),
{
    let exit_list = exits(loc.address);
    let player_names = list_players_here(rows, loc.address, viewer);
    let npc_names = list_npcs_here(rows, loc.address);
    let mut text = String::new();
    text.append("\n");
    let desc = fill(loc.description, TERMWIDTH);
    text.append(desc.as_str());
    text.append("\nExits: ");
    text.append(exit_list.as_str());
    text.append("\n");
    let players = fill(player_names.as_str(), TERMWIDTH);
    text.append(players.as_str());
    let npcs = fill(npc_names.as_str(), TERMWIDTH);
    text.append(npcs.as_str());
    text.append("\n");
    text
}

} // verus!
