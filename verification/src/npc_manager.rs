//! Populating the map with aggressive characters when the game starts.

use vstd::prelude::*;

use crate::aggression::roam_word;
use crate::components::{map_location, on_map, spec_map_location};
use crate::constants::{spec_direction_from, Direction};
use crate::ecs::{
    create_npc, entity_key, has_key, inserted_somewhere, npc_row, row_wf, rows_with_moving, RowView,
};
use crate::ecs::{ecs_issued, gens_below};
use crate::dice::{draw, drawn_in, Draw};
use crate::game_state::{lemma_players_carry_over, GameState};
use crate::text::owned;

verus! {

/// How many characters the game spawns when it starts.
pub const NPC_COUNT: usize = 99;

/// The names of the spawned characters, by number.
pub open spec fn npc_name(pick: usize) -> Seq<char> {
    if pick == 0 {
        "Kobold"@
    } else if pick == 1 {
        "Orc"@
    } else if pick == 2 {
        "Dark-Elf"@
    } else {
        "Marauder"@
    }
}

/// The four names are, by number, Kobold, Orc, Dark-Elf and Marauder, and
/// no two are the same: every pick of 0 to 3 spawns its own kind.
pub proof fn npc_names_listed(pick: usize, other: usize)
    ensures
        pick < 4 ==> npc_name(pick) == seq!["Kobold"@, "Orc"@, "Dark-Elf"@, "Marauder"@][pick as int],
        pick < 4 && other < 4 && pick != other ==> npc_name(pick) != npc_name(other),
{
    reveal_strlit("Kobold");
    reveal_strlit("Orc");
    reveal_strlit("Dark-Elf");
    reveal_strlit("Marauder");
    if pick < 4 && other < 4 && pick != other {
        assert(npc_name(pick)[0] != npc_name(other)[0]);
    }
}

/// Name number `pick`.
fn npc_name_of(pick: usize) -> (r: &'static str)
    ensures
        r@ == npc_name(pick),
{
    if pick == 0 {
        "Kobold"
    } else if pick == 1 {
        "Orc"
    } else if pick == 2 {
        "Dark-Elf"
    } else {
        "Marauder"
    }
}

/// The names of spawned characters are not empty.
pub proof fn lemma_npc_names_not_empty(pick: usize)
    ensures
        npc_name(pick).len() > 0,
{
    reveal_strlit("Kobold");
    reveal_strlit("Orc");
    reveal_strlit("Dark-Elf");
    reveal_strlit("Marauder");
}

/// Whether a row is one that spawning makes: a named, aggressive
/// non-player character in a room of the map with nothing to say.
pub open spec fn spawned_row(r: RowView) -> bool {
    &&& r.player is None
    &&& r.npc
    &&& r.aggressive
    &&& r.name is Some
    &&& exists|k: usize| k < 4 && r.name.unwrap() == npc_name(k)
    &&& r.location is Some
    &&& on_map(r.location.unwrap().address)
    &&& r.location.unwrap() == spec_map_location(r.location.unwrap().address.0, r.location.unwrap().address.1)
    &&& r.speaking is None
}

/// What spawning picks for one character: its room's column and row, its
/// name, and the roaming direction, if any.
pub type SpawnPick = (usize, usize, usize, Option<usize>);

/// Whether the picks lie in their ranges: a room of the map, one of the
/// four names, one of the four directions.
pub open spec fn picks_ok(picks: Seq<SpawnPick>) -> bool {
    forall|i: int|
        0 <= i < picks.len() ==> {
            let p = #[trigger] picks[i];
            &&& p.0 < 10
            &&& p.1 < 10
            &&& p.2 < 4
            &&& (p.3 matches Some(d) ==> d < 4)
        }
}

/// Whether `after` is `before` with one character spawned as `p` picks:
/// a fresh entity, named and placed as picked, roaming as picked.
pub open spec fn spawn_step(before: Seq<RowView>, after: Seq<RowView>, p: SpawnPick) -> bool {
    exists|k: (u32, i32)| {
        &&& !has_key(before, k)
        &&& match p.3 {
            None => inserted_somewhere(before, after, npc_row(k, npc_name(p.2), spec_map_location(p.0, p.1))),
            Some(d) => exists|mid: Seq<RowView>| {
                &&& inserted_somewhere(before, mid, npc_row(k, npc_name(p.2), spec_map_location(p.0, p.1)))
                &&& after == rows_with_moving(mid, k, Some(spec_direction_from(roam_word(d))))
            },
        }
    }
}

/// Whether `after` is `before` with one character spawned for each pick,
/// in order.
pub open spec fn spawned_by(before: Seq<RowView>, after: Seq<RowView>, picks: Seq<SpawnPick>) -> bool
    decreases picks.len(),
{
    if picks.len() == 0 {
        after == before
    } else {
        exists|mid: Seq<RowView>| spawned_by(before, mid, picks.drop_last()) && spawn_step(mid, after, picks.last())
    }
}

/// Spawns one character, named by `name_pick`, in the room at `(x, y)`;
/// with `step`, it also starts to roam in the direction that `step`
/// picks.
pub fn spawn_npc(gs: &mut GameState, x: usize, y: usize, name_pick: usize, step: Option<usize>)
    requires
        old(gs).wf(),
        old(gs).rows().len() < 4294967295,
        old(gs).room_to_allocate(0),
        on_map((x, y)),
        name_pick < 4,
    ensures
        final(gs).wf(),
        final(gs).players == old(gs).players,
        final(gs).rows().len() == old(gs).rows().len() + 1,
        ecs_issued(old(gs).ecs).subset_of(ecs_issued(final(gs).ecs)),
        forall|b: int| b >= 1 && gens_below(ecs_issued(old(gs).ecs), b) ==> gens_below(ecs_issued(final(gs).ecs), b + 1),
        spawn_step(old(gs).rows(), final(gs).rows(), (x, y, name_pick, step)),
{
    let loc = map_location(x, y);
    let name = owned(npc_name_of(name_pick));
    let ghost before = gs.rows();
    let new_enemy = create_npc(&mut gs.ecs, name, loc);
    let ghost mid = gs.rows();
    let ghost key = entity_key(new_enemy);
    let ghost row = npc_row(key, npc_name(name_pick), spec_map_location(x, y));
    proof {
        let k = choose|k: int| 0 <= k <= before.len() && mid == before.insert(k, row);
        assert forall|j: int| 0 <= j < mid.len() implies #[trigger] row_wf(mid[j]) by {
            if j < k {
                assert(row_wf(before[j]));
            } else if j > k {
                assert(mid[j] == before[j - 1]);
                assert(row_wf(before[j - 1]));
            } else {
                lemma_npc_names_not_empty(name_pick);
            }
        }
        assert(mid[k].key == key);
        assert(has_key(mid, key));
        assert(ecs_issued(old(gs).ecs).subset_of(ecs_issued(gs.ecs)));
        lemma_players_carry_over(*old(gs), *gs);
    }
    match step {
        Some(k) => {
            gs.add_mover(new_enemy, Direction::from(owned(crate::aggression::roam_word_of(k))));
            assert(spawn_step(before, gs.rows(), (x, y, name_pick, step))) by {
                assert(inserted_somewhere(before, mid, row) && gs.rows() == rows_with_moving(mid, key, Some(spec_direction_from(roam_word(k)))));
            }
        },
        None => {
            assert(spawn_step(before, gs.rows(), (x, y, name_pick, step))) by {
                assert(inserted_somewhere(before, gs.rows(), row));
            }
        },
    }
}

/// A spawn step adds one row, keeps every row already there, and every
/// row after it is one already there or one that spawning makes.
proof fn lemma_spawn_step(before: Seq<RowView>, after: Seq<RowView>, p: SpawnPick)
    requires
        spawn_step(before, after, p),
        p.2 < 4,
        on_map((p.0, p.1)),
    ensures
        after.len() == before.len() + 1,
        forall|j: int| 0 <= j < before.len() ==> after.contains(#[trigger] before[j]),
        forall|j: int| 0 <= j < after.len() ==> before.contains(#[trigger] after[j]) || spawned_row(after[j]),
{
    let key = choose|k: (u32, i32)| {
        &&& !has_key(before, k)
        &&& match p.3 {
            None => inserted_somewhere(before, after, npc_row(k, npc_name(p.2), spec_map_location(p.0, p.1))),
            Some(d) => exists|mid: Seq<RowView>| {
                &&& inserted_somewhere(before, mid, npc_row(k, npc_name(p.2), spec_map_location(p.0, p.1)))
                &&& after == rows_with_moving(mid, k, Some(spec_direction_from(roam_word(d))))
            },
        }
    };
    let row = npc_row(key, npc_name(p.2), spec_map_location(p.0, p.1));
    assert(spawned_row(row)) by {
        assert(p.2 < 4 && row.name.unwrap() == npc_name(p.2));
    }
    let mid = match p.3 {
        None => after,
        Some(d) => choose|mid: Seq<RowView>| {
            &&& inserted_somewhere(before, mid, row)
            &&& after == rows_with_moving(mid, key, Some(spec_direction_from(roam_word(d))))
        },
    };
    assert(inserted_somewhere(before, mid, row));
    let k = choose|k: int| 0 <= k <= before.len() && mid == before.insert(k, row);
    assert forall|j: int| 0 <= j < before.len() implies #[trigger] after.contains(before[j]) by {
        let i = if j < k { j } else { j + 1 };
        assert(mid[i] == before[j]);
        if p.3 is Some {
            assert(before[j].key != key);
        }
        assert(after[i] == before[j]);
    }
    assert forall|j: int| 0 <= j < after.len() implies before.contains(#[trigger] after[j]) || spawned_row(after[j]) by {
        if j == k {
            assert(spawned_row(after[j]));
        } else {
            let i = if j < k { j } else { j - 1 };
            assert(mid[j] == before[i]);
            if p.3 is Some {
                assert(before[i].key != key);
            }
            assert(after[j] == before[i]);
        }
    }
}

/// Spawns one character for each pick, in order. The rows already there
/// stay as they are.
pub fn spawn_npcs_with(gs: &mut GameState, picks: &Vec<SpawnPick>)
    requires
        old(gs).wf(),
        old(gs).rows().len() + picks@.len() < 4294967295,
        picks@.len() < 2147483647,
        old(gs).room_to_allocate(picks@.len() as int),
        picks_ok(picks@),
    ensures
        final(gs).wf(),
        final(gs).players == old(gs).players,
        spawned_by(old(gs).rows(), final(gs).rows(), picks@),
        final(gs).rows().len() == old(gs).rows().len() + picks@.len(),
        forall|j: int| 0 <= j < old(gs).rows().len() ==> final(gs).rows().contains(#[trigger] old(gs).rows()[j]),
        forall|j: int|
            0 <= j < final(gs).rows().len() ==> old(gs).rows().contains(#[trigger] final(gs).rows()[j])
                || spawned_row(final(gs).rows()[j]),
        ecs_issued(old(gs).ecs).subset_of(ecs_issued(final(gs).ecs)),
        forall|b: int|
            b >= 1 && gens_below(ecs_issued(old(gs).ecs), b) ==> gens_below(ecs_issued(final(gs).ecs), b + picks@.len()),
{
    let mut i: usize = 0;
    let n = picks.len();
    assert(picks@.take(0) =~= Seq::<SpawnPick>::empty());
    while i < n
        invariant
            n == picks@.len(),
            i <= n,
            n < 2147483647,
            picks_ok(picks@),
            gs.wf(),
            gs.players == old(gs).players,
            gs.rows().len() == old(gs).rows().len() + i,
            old(gs).rows().len() + n < 4294967295,
            gs.room_to_allocate((n - i) as int),
            spawned_by(old(gs).rows(), gs.rows(), picks@.take(i as int)),
            forall|j: int| 0 <= j < old(gs).rows().len() ==> gs.rows().contains(#[trigger] old(gs).rows()[j]),
            forall|j: int|
                0 <= j < gs.rows().len() ==> old(gs).rows().contains(#[trigger] gs.rows()[j])
                    || spawned_row(gs.rows()[j]),
            ecs_issued(old(gs).ecs).subset_of(ecs_issued(gs.ecs)),
            forall|b: int| b >= 1 && gens_below(ecs_issued(old(gs).ecs), b) ==> gens_below(ecs_issued(gs.ecs), b + i),
        decreases n - i,
    {
        let p = picks[i];
        proof {
            assert(picks_ok(picks@) ==> {
                let q = picks@[i as int];
                q.0 < 10 && q.1 < 10 && q.2 < 4 && (q.3 matches Some(d) ==> d < 4)
            });
            assert(gens_below(ecs_issued(gs.ecs), 2147483647 - (n - i)));
            assert forall|kk: (u32, i32)| ecs_issued(gs.ecs).contains(kk) implies kk.1 < 2147483647 by {}
        }
        let ghost before = gs.rows();
        let ghost issued_before = ecs_issued(gs.ecs);
        spawn_npc(gs, p.0, p.1, p.2, p.3);
        proof {
            assert forall|b: int| b >= 1 && gens_below(ecs_issued(old(gs).ecs), b) implies gens_below(ecs_issued(gs.ecs), b + i + 1) by {
                assert(gens_below(issued_before, b + i));
            }
            lemma_spawn_step(before, gs.rows(), p);
            assert(picks@.take(i + 1).drop_last() =~= picks@.take(i as int));
            assert(picks@.take(i + 1).last() == p);
            assert(spawned_by(old(gs).rows(), gs.rows(), picks@.take(i + 1)));
            assert forall|j: int| 0 <= j < old(gs).rows().len() implies gs.rows().contains(#[trigger] old(gs).rows()[j]) by {
                let x = choose|x: int| 0 <= x < before.len() && before[x] == old(gs).rows()[j];
                assert(gs.rows().contains(before[x]));
            }
            assert forall|j: int| 0 <= j < gs.rows().len() implies old(gs).rows().contains(#[trigger] gs.rows()[j])
                || spawned_row(gs.rows()[j]) by {
                if before.contains(gs.rows()[j]) {
                    let x = choose|x: int| 0 <= x < before.len() && before[x] == gs.rows()[j];
                    assert(old(gs).rows().contains(before[x]) || spawned_row(before[x]));
                }
            }
        }
        i = i + 1;
    }
    assert(picks@.take(n as int) =~= picks@);
}

/// Whether `ds` are the draws spawning makes for one character: its
/// room's column and row, each of 0 to 9; its name, of 0 to 3; whether
/// it roams, 0 or 1; and only on 1, its direction, of 0 to 3.
pub open spec fn spawn_draws(ds: Seq<Draw>) -> bool {
    &&& ds.len() >= 4
    &&& drawn_in(ds[0], 0, 10)
    &&& drawn_in(ds[1], 0, 10)
    &&& drawn_in(ds[2], 0, 4)
    &&& drawn_in(ds[3], 0, 2)
    &&& if ds[3].value() == 1 {
        ds.len() == 5 && drawn_in(ds[4], 0, 4)
    } else {
        ds.len() == 4
    }
}

/// What one character's draws pick.
pub open spec fn pick_of_draws(ds: Seq<Draw>) -> SpawnPick {
    (ds[0].value(), ds[1].value(), ds[2].value(), if ds[3].value() == 1 { Some(ds[4].value()) } else { None })
}

/// Whether `after` is `before` with one character spawned for each set
/// of draws, in order, each set made as `spawn_draws` says.
pub open spec fn spawned_by_draws(before: Seq<RowView>, after: Seq<RowView>, draws: Seq<Seq<Draw>>) -> bool {
    &&& forall|i: int| 0 <= i < draws.len() ==> spawn_draws(#[trigger] draws[i])
    &&& spawned_by(before, after, draws.map_values(|ds: Seq<Draw>| pick_of_draws(ds)))
}

/// Spawns the characters of a new game: 99 of them, each in a room picked
/// at random, with a name picked at random, and every second one on
/// average roaming in a direction picked at random. The dice are rolled
/// for each character in turn: column, row, name, whether it roams, and
/// then its direction. The rows already there stay as they are.
pub fn spawn_npcs(gs: &mut GameState)
    requires
        old(gs).wf(),
        old(gs).rows().len() + NPC_COUNT < 4294967295,
        old(gs).room_to_allocate(NPC_COUNT as int),
    ensures
        final(gs).wf(),
        final(gs).players == old(gs).players,
        exists|draws: Seq<Seq<Draw>>|
            draws.len() == NPC_COUNT && #[trigger] spawned_by_draws(old(gs).rows(), final(gs).rows(), draws),
        final(gs).rows().len() == old(gs).rows().len() + NPC_COUNT,
        forall|j: int| 0 <= j < old(gs).rows().len() ==> final(gs).rows().contains(#[trigger] old(gs).rows()[j]),
        forall|j: int|
            0 <= j < final(gs).rows().len() ==> old(gs).rows().contains(#[trigger] final(gs).rows()[j])
                || spawned_row(final(gs).rows()[j]),
        ecs_issued(old(gs).ecs).subset_of(ecs_issued(final(gs).ecs)),
        forall|b: int|
            b >= 1 && gens_below(ecs_issued(old(gs).ecs), b) ==> gens_below(ecs_issued(final(gs).ecs), b + NPC_COUNT),
{
    let mut picks: Vec<SpawnPick> = Vec::new();
    let ghost mut draws: Seq<Seq<Draw>> = Seq::empty();
    let mut n: usize = 1;
    while n < 100
        invariant
            1 <= n <= 100,
            picks@.len() == n - 1,
            draws.len() == n - 1,
            forall|i: int| 0 <= i < draws.len() ==> spawn_draws(#[trigger] draws[i]),
            picks@ == draws.map_values(|ds: Seq<Draw>| pick_of_draws(ds)),
        decreases 100 - n,
    {
        let dx = draw(0, 10);
        let dy = draw(0, 10);
        let dn = draw(0, 4);
        let droam = draw(0, 2);
        let ghost mut ds = seq![dx, dy, dn, droam];
        let step = if droam.value() == 1 {
            let dd = draw(0, 4);
            proof {
                ds = ds.push(dd);
            }
            Some(dd.value())
        } else {
            None
        };
        let p = (dx.value(), dy.value(), dn.value(), step);
        assert(spawn_draws(ds));
        assert(p == pick_of_draws(ds));
        let ghost prev = draws;
        picks.push(p);
        proof {
            draws = draws.push(ds);
            assert forall|i: int| 0 <= i < draws.len() implies spawn_draws(#[trigger] draws[i]) by {
                if i < prev.len() {
                    assert(draws[i] == prev[i]);
                }
            }
            assert(picks@ =~= draws.map_values(|ds: Seq<Draw>| pick_of_draws(ds)));
        }
        n = n + 1;
    }
    proof {
        assert forall|i: int| 0 <= i < picks@.len() implies {
            let p = #[trigger] picks@[i];
            &&& p.0 < 10
            &&& p.1 < 10
            &&& p.2 < 4
            &&& (p.3 matches Some(d) ==> d < 4)
        } by {
            assert(spawn_draws(draws[i]));
        }
    }
    spawn_npcs_with(gs, &picks);
    assert(spawned_by_draws(old(gs).rows(), gs.rows(), draws));
}

} // verus!
