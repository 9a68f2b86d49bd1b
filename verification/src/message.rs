//! Text on its way to a connected player.

use vstd::prelude::*;

use crate::ecs::{entity_key, rows_view, same_entity, EntityRow, RowView};
use crate::room::stands_at;

verus! {

/// A text for the player reached through connection `to`.
pub struct Outgoing {
    pub to: u128,
    pub text: String,
}

impl View for Outgoing {
    type V = (u128, Seq<char>);

    open spec fn view(&self) -> (u128, Seq<char>) {
        (self.to, self.text@)
    }
}

/// The views of a list of messages.
pub open spec fn msgs_view(msgs: Seq<Outgoing>) -> Seq<(u128, Seq<char>)> {
    msgs.map_values(|m: Outgoing| m@)
}

/// Whether a row is a player, other than the entity with key `except`,
/// in the room at `at`.
pub open spec fn listener_at(r: RowView, at: (usize, usize), except: (u32, i32)) -> bool {
    &&& r.player is Some
    &&& stands_at(r, at)
    &&& r.key != except
}

/// The same text for every player in the room at `at` other than the
/// entity with key `except`, in store order.
pub open spec fn notify_room(rows: Seq<RowView>, at: (usize, usize), except: (u32, i32), text: Seq<char>) -> Seq<
    (u128, Seq<char>),
>
    decreases rows.len(),
{
    if rows.len() == 0 {
        Seq::empty()
    } else {
        let r = rows.last();
        notify_room(rows.drop_last(), at, except, text) + (if listener_at(r, at, except) {
            seq![(r.player.unwrap(), text)]
        } else {
            Seq::empty()
        })
    }
}

/// Whether an exec row stands in the room at `at`.
pub fn row_at(r: &EntityRow, at: (usize, usize)) -> (b: bool)
    ensures
        b == stands_at(r@, at),
{
    match r.location {
        Some(l) => l.address.0 == at.0 && l.address.1 == at.1,
        None => false,
    }
}

/// Appends to `out` the text for every player in the room at `at` other
/// than `except`.
pub fn push_notify_room(
    out: &mut Vec<Outgoing>,
    rows: &Vec<EntityRow>,
    at: (usize, usize),
    except: specs::Entity,
    text: &String,
)
    ensures
        msgs_view(final(out)@) == msgs_view(old(out)@) + notify_room(
            rows_view(rows@),
            at,
            entity_key(except),
            text@,
        ),
{
    let ghost v = rows_view(rows@);
    let ghost start = msgs_view(out@);
    let mut i: usize = 0;
    while i < rows.len()
        invariant
            v == rows_view(rows@),
            i <= rows@.len(),
            msgs_view(out@) == start + notify_room(v.take(i as int), at, entity_key(except), text@),
        decreases rows@.len() - i,
    {
        let r = &rows[i];
        proof {
            assert(v.take(i + 1).drop_last() =~= v.take(i as int));
            assert(v.take(i + 1).last() == r@);
        }
        match r.player {
            Some(to) => {
                if row_at(r, at) && !same_entity(r.entity, except) {
                    let ghost prev = out@;
                    out.push(Outgoing { to, text: text.clone() });
                    assert(msgs_view(out@) =~= msgs_view(prev).push((to, text@)));
                }
            },
            None => {},
        }
        i = i + 1;
    }
    assert(v.take(rows@.len() as int) =~= v);
}

} // verus!

verus! {

/// Whether a player reached through `id` stands in the room at `at` and
/// is not the entity with key `except`.
pub open spec fn some_listener(rows: Seq<RowView>, at: (usize, usize), except: (u32, i32), id: u128) -> bool {
    exists|j: int| 0 <= j < rows.len() && listener_at(rows[j], at, except) && rows[j].player == Some(id)
}

/// News of a room reaches only players who stand in that room, never the
/// entity that the news is about, and always with the same text.
pub proof fn notify_room_reaches_listeners(rows: Seq<RowView>, at: (usize, usize), except: (u32, i32), text: Seq<char>)
    ensures
        forall|i: int|
            0 <= i < notify_room(rows, at, except, text).len() ==> (#[trigger] notify_room(rows, at, except, text)[i]).1 == text
                && some_listener(rows, at, except, notify_room(rows, at, except, text)[i].0),
    decreases rows.len(),
{
    if rows.len() > 0 {
        let p = rows.drop_last();
        notify_room_reaches_listeners(p, at, except, text);
        let n = notify_room(rows, at, except, text);
        let np = notify_room(p, at, except, text);
        assert forall|i: int| 0 <= i < n.len() implies (#[trigger] n[i]).1 == text && some_listener(rows, at, except, n[i].0) by {
            if i < np.len() {
                assert(n[i] == np[i]);
                assert(some_listener(p, at, except, np[i].0));
                let j = choose|j: int| 0 <= j < p.len() && listener_at(p[j], at, except) && p[j].player == Some(np[i].0);
                assert(rows[j] == p[j]);
            } else {
                assert(rows[rows.len() - 1] == rows.last());
            }
        }
    }
}

} // verus!
