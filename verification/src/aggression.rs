//! The mischief of aggressive characters: now and then one roams off or
//! shouts a taunt.

use vstd::prelude::*;
use vstd::string::StringExecFns;

use crate::communication::{pronoun, spec_pronoun};
use crate::constants::{spec_direction_from, Direction};
use crate::ecs::{
    ecs_issued,
    ascending, ecs_ready, ecs_rows, entity_key, insert_moving, insert_speaking, row_wf, rows_view,
    rows_with_moving, rows_with_speaking, snapshot, world_wf, RowView,
};
use crate::dice::{draw, drawn_in, Draw};
use crate::text::owned;

verus! {

/// What an aggressive character does in a tick.
#[derive(Clone, Copy, Debug, PartialEq, Eq, Structural)]
pub enum Mischief {
    Idle,
    Roam(Direction),
    Taunt(usize),
}

/// The word by which a roaming character's direction is picked.
pub open spec fn roam_word(pick: usize) -> Seq<char> {
    if pick == 0 {
        "n"@
    } else if pick == 1 {
        "s"@
    } else if pick == 2 {
        "e"@
    } else {
        "w"@
    }
}

/// The taunts, by number.
pub open spec fn taunt_line(pick: usize) -> Seq<char> {
    if pick == 0 {
        "I'll eat your toes for breakfast!"@
    } else if pick == 1 {
        "Aaarrrrgh! Let's find that gold, it's around here somewhere..."@
    } else if pick == 2 {
        "Come on, fight me like a man!"@
    } else if pick == 3 {
        "Buuuuuuuuuurp..."@
    } else {
        "You should watch your back..."@
    }
}

/// The five taunts are, by number, these lines, and no two are the same:
/// every pick of 0 to 4 shouts its own line.
pub proof fn taunt_lines_listed(pick: usize, other: usize)
    ensures
        pick < 5 ==> taunt_line(pick) == seq![
            "I'll eat your toes for breakfast!"@,
            "Aaarrrrgh! Let's find that gold, it's around here somewhere..."@,
            "Come on, fight me like a man!"@,
            "Buuuuuuuuuurp..."@,
            "You should watch your back..."@,
        ][pick as int],
        pick < 5 && other < 5 && pick != other ==> taunt_line(pick) != taunt_line(other),
{
    reveal_strlit("I'll eat your toes for breakfast!");
    reveal_strlit("Aaarrrrgh! Let's find that gold, it's around here somewhere...");
    reveal_strlit("Come on, fight me like a man!");
    reveal_strlit("Buuuuuuuuuurp...");
    reveal_strlit("You should watch your back...");
    if pick < 5 && other < 5 && pick != other {
        assert(taunt_line(pick)[0] != taunt_line(other)[0]);
    }
}

/// A character acts only on a first roll of 100; it then roams exactly
/// when the second roll is 97 or 98, north, south, east or west as the
/// pick is 0, 1, 2 or 3, and shouts taunt `pick` exactly when the second
/// roll is 99 or 100.
pub proof fn mischief_by_rolls(chance: usize, chance2: usize, pick: usize)
    requires
        1 <= chance <= 100,
        1 <= chance2 <= 100,
    ensures
        spec_mischief(chance, chance2, pick) is Roam <==> chance == 100 && 97 <= chance2 <= 98,
        spec_mischief(chance, chance2, pick) is Taunt <==> chance == 100 && 99 <= chance2,
        spec_mischief(chance, chance2, pick) matches Mischief::Taunt(k) ==> k == pick,
        spec_mischief(chance, chance2, pick) matches Mischief::Roam(d) ==> pick < 4 ==> d == seq![
            Direction::N,
            Direction::S,
            Direction::E,
            Direction::W,
        ][pick as int],
{
    if pick < 4 {
        roam_picks(pick);
    }
}

/// What a character with this name says when it shouts taunt `pick`.
pub open spec fn taunt_text(name: Seq<char>, pick: usize) -> Seq<char> {
    spec_pronoun(name) + " "@ + name + " says, \""@ + taunt_line(pick) + "\"\n"@
}

/// What the dice decide: a first roll above 99 (of 1 to 100) stirs the
/// character; then a second roll of 97 or 98 sends it roaming in the
/// direction that `pick` (of 0 to 3) names, and one above 98 makes it
/// shout taunt `pick` (of 0 to 4).
pub open spec fn spec_mischief(chance: usize, chance2: usize, pick: usize) -> Mischief {
    if chance <= 99 {
        Mischief::Idle
    } else if 96 < chance2 <= 98 {
        Mischief::Roam(spec_direction_from(roam_word(pick)))
    } else if chance2 > 98 {
        Mischief::Taunt(pick)
    } else {
        Mischief::Idle
    }
}

/// Whether the dice that `spec_mischief` reads lie in their ranges.
pub open spec fn rolls_in_range(chance: usize, chance2: usize, pick: usize) -> bool {
    &&& 1 <= chance <= 100
    &&& 1 <= chance2 <= 100
    &&& (96 < chance2 <= 98 ==> pick < 4)
    &&& (chance2 > 98 ==> pick < 5)
}

/// The word by which a roaming character's direction is picked.
pub fn roam_word_of(pick: usize) -> (r: &'static str)
    ensures
        r@ == roam_word(pick),
{
    if pick == 0 {
        "n"
    } else if pick == 1 {
        "s"
    } else if pick == 2 {
        "e"
    } else {
        "w"
    }
}

/// Taunt number `pick`.
fn taunt_line_of(pick: usize) -> (r: &'static str)
    ensures
        r@ == taunt_line(pick),
{
    if pick == 0 {
        "I'll eat your toes for breakfast!"
    } else if pick == 1 {
        "Aaarrrrgh! Let's find that gold, it's around here somewhere..."
    } else if pick == 2 {
        "Come on, fight me like a man!"
    } else if pick == 3 {
        "Buuuuuuuuuurp..."
    } else {
        "You should watch your back..."
    }
}

/// Decides what an aggressive character does, from the dice.
pub fn mischief(chance: usize, chance2: usize, pick: usize) -> (m: Mischief)
    ensures
        m == spec_mischief(chance, chance2, pick),
{
    if chance <= 99 {
        Mischief::Idle
    } else if chance2 > 96 && chance2 <= 98 {
        Mischief::Roam(Direction::from(owned(roam_word_of(pick))))
    } else if chance2 > 98 {
        Mischief::Taunt(pick)
    } else {
        Mischief::Idle
    }
}

/// Builds what a character with this name shouts.
pub fn taunt(name: &String, pick: usize) -> (r: String)
    requires
        name@.len() > 0,
    ensures
        r@ == taunt_text(name@, pick),
{
    let mut t = String::new();
    t.append(pronoun(name));
    t.append(" ");
    t.append(name.as_str());
    t.append(" says, \"");
    t.append(taunt_line_of(pick));
    t.append("\"\n");
    t
}

/// Whether a row is one that the aggression system visits.
pub open spec fn aggressor(r: RowView) -> bool {
    r.aggressive && r.name is Some
}

/// A row after its character does `m`.
pub open spec fn after_mischief(r: RowView, m: Mischief) -> RowView {
    match m {
        Mischief::Idle => r,
        Mischief::Roam(d) => RowView { moving: Some(d), ..r },
        Mischief::Taunt(k) => RowView { speaking: Some(taunt_text(r.name.unwrap(), k)), ..r },
    }
}

/// Whether `m` is something the dice can decide.
pub open spec fn possible(m: Mischief) -> bool {
    match m {
        Mischief::Taunt(k) => k < 5,
        _ => true,
    }
}

/// The rows after every aggressor `j` does `acts[j]`.
pub open spec fn rows_after_mischief(rows: Seq<RowView>, acts: Seq<Mischief>) -> Seq<RowView> {
    Seq::new(rows.len(), |j: int| if aggressor(rows[j]) { after_mischief(rows[j], acts[j]) } else { rows[j] })
}

/// Carries out what an aggressive character decided.
pub fn act_out(ecs: &mut specs::World, e: specs::Entity, name: &String, m: Mischief)
    requires
        ecs_ready(*old(ecs)),
        name@.len() > 0,
        possible(m),
        exists|j: int| 0 <= j < ecs_rows(*old(ecs)).len() && ecs_rows(*old(ecs))[j].key == entity_key(e),
    ensures
        ecs_issued(*final(ecs)) == ecs_issued(*old(ecs)),
        ecs_ready(*final(ecs)),
        ecs_rows(*final(ecs)) == match m {
            Mischief::Idle => ecs_rows(*old(ecs)),
            Mischief::Roam(d) => rows_with_moving(ecs_rows(*old(ecs)), entity_key(e), Some(d)),
            Mischief::Taunt(k) => rows_with_speaking(ecs_rows(*old(ecs)), entity_key(e), Some(taunt_text(name@, k))),
        },
{
    match m {
        Mischief::Idle => {},
        Mischief::Roam(d) => {
            insert_moving(ecs, e, d);
        },
        Mischief::Taunt(k) => {
            let msg = taunt(name, k);
            insert_speaking(ecs, e, msg);
        },
    }
}

/// Lets every aggressive character roll for mischief.
pub struct AggressionSystem {}

/// The dice one aggressive character rolls in a tick: the first roll,
/// the second roll and the pick (see `spec_mischief`).
pub type Dice = (usize, usize, usize);

/// Whether there is one set of dice per row, in range for every row that
/// the aggression system visits.
pub open spec fn dice_ok(rows: Seq<RowView>, dice: Seq<Dice>) -> bool {
    &&& dice.len() == rows.len()
    &&& forall|j: int| 0 <= j < rows.len() && aggressor(rows[j]) ==> rolls_in_range(
        (#[trigger] dice[j]).0,
        dice[j].1,
        dice[j].2,
    )
}

/// What each set of dice decides.
pub open spec fn acts_of(dice: Seq<Dice>) -> Seq<Mischief> {
    dice.map_values(|d: Dice| spec_mischief(d.0, d.1, d.2))
}

/// Whether `ds` are the draws one aggressive character makes in a tick:
/// a first roll of 1 to 100; only above 99, a second roll of 1 to 100;
/// only then, on 97 or 98, a pick of 0 to 3, and above 98 a pick of 0
/// to 4.
pub open spec fn mischief_draws(ds: Seq<Draw>) -> bool {
    &&& ds.len() >= 1
    &&& drawn_in(ds[0], 1, 101)
    &&& if ds[0].value() <= 99 {
        ds.len() == 1
    } else {
        &&& ds.len() >= 2
        &&& drawn_in(ds[1], 1, 101)
        &&& if 96 < ds[1].value() <= 98 {
            ds.len() == 3 && drawn_in(ds[2], 0, 4)
        } else if ds[1].value() > 98 {
            ds.len() == 3 && drawn_in(ds[2], 0, 5)
        } else {
            ds.len() == 2
        }
    }
}

/// The dice that a character's draws make; a roll not made reads 1, a
/// pick not made reads 0.
pub open spec fn dice_of_draws(ds: Seq<Draw>) -> Dice {
    (
        ds[0].value(),
        if ds.len() > 1 { ds[1].value() } else { 1 },
        if ds.len() > 2 { ds[2].value() } else { 0 },
    )
}

/// Whether `after` is `before` once every aggressive character (row `j`)
/// has made the draws `draws[j]` and done what they decide; the other
/// rows draw nothing.
pub open spec fn mischief_by_draws(before: Seq<RowView>, after: Seq<RowView>, draws: Seq<Seq<Draw>>) -> bool {
    &&& draws.len() == before.len()
    &&& forall|j: int| 0 <= j < before.len() ==> if aggressor(before[j]) {
        mischief_draws(#[trigger] draws[j])
    } else {
        draws[j].len() == 0
    }
    &&& after == rows_after_mischief(before, acts_of(draws.map_values(|ds: Seq<Draw>| dice_of_draws(ds))))
}

impl AggressionSystem {
    /// Carries out, for every aggressive named entity in store order, what
    /// its own dice (`dice[j]` for row `j`) decide.
    pub fn run_with_dice(&mut self, ecs: &mut specs::World, dice: &Vec<Dice>)
        requires
            ecs_ready(*old(ecs)),
            world_wf(ecs_rows(*old(ecs))),
            dice_ok(ecs_rows(*old(ecs)), dice@),
        ensures
            ecs_issued(*final(ecs)) == ecs_issued(*old(ecs)),
            ecs_ready(*final(ecs)),
            world_wf(ecs_rows(*final(ecs))),
            ecs_rows(*final(ecs)) == rows_after_mischief(ecs_rows(*old(ecs)), acts_of(dice@)),
    {
        let rows = snapshot(ecs);
        let ghost v = rows_view(rows@);
        let ghost mut acts: Seq<Mischief> = Seq::new(v.len(), |j: int| Mischief::Idle);
        let mut i: usize = 0;
        while i < rows.len()
            invariant
                v == rows_view(rows@),
                v == ecs_rows(*old(ecs)),
                ascending(v),
                world_wf(v),
                dice_ok(v, dice@),
                i <= rows@.len(),
                ecs_ready(*ecs),
                ecs_issued(*ecs) == ecs_issued(*old(ecs)),
                acts.len() == v.len(),
                forall|j: int| 0 <= j < acts.len() ==> possible(#[trigger] acts[j]),
                forall|j: int| i <= j < acts.len() ==> acts[j] == Mischief::Idle,
                forall|j: int| 0 <= j < i && aggressor(v[j]) ==> #[trigger] acts[j] == acts_of(dice@)[j],
                ecs_rows(*ecs) == rows_after_mischief(v, acts),
            decreases rows@.len() - i,
        {
            let r = &rows[i];
            proof {
                assert(row_wf(v[i as int]));
            }
            if r.aggressive {
                match &r.name {
                    Some(name) => {
                        let d = dice[i];
                        proof {
                            assert(aggressor(v[i as int]));
                            assert(rolls_in_range(dice@[i as int].0, dice@[i as int].1, dice@[i as int].2));
                            mischief_needs_high_roll(d.0, d.1, d.2);
                        }
                        let m = mischief(d.0, d.1, d.2);
                        proof {
                            assert(v[i as int].key == entity_key(r.entity));
                            assert(rows_after_mischief(v, acts)[i as int].key == entity_key(r.entity));
                        }
                        act_out(ecs, r.entity, name, m);
                        proof {
                            acts = acts.update(i as int, m);
                            assert(ecs_rows(*ecs) =~= rows_after_mischief(v, acts)) by {
                                assert forall|j: int| 0 <= j < v.len() implies ecs_rows(*ecs)[j] == rows_after_mischief(v, acts)[j] by {
                                    if j != i {
                                        assert(v[j].key != v[i as int].key);
                                    }
                                }
                            }
                        }
                    },
                    None => {},
                }
            }
            i = i + 1;
        }
        proof {
            assert(rows_after_mischief(v, acts) =~= rows_after_mischief(v, acts_of(dice@)));
            assert forall|j: int| 0 <= j < v.len() implies #[trigger] row_wf(rows_after_mischief(v, acts)[j]) by {
                assert(row_wf(v[j]));
            }
        }
    }

    /// Rolls the dice for every aggressive named entity, in store order —
    /// a first roll of 1 to 100; above 99, a second roll of 1 to 100; then,
    /// on a second roll of 97 or 98, a pick of 0 to 3, and above 98 a pick
    /// of 0 to 4 — and carries out what they decide. Which way the dice
    /// fall is left to chance.
    pub fn run(&mut self, ecs: &mut specs::World)
        requires
            ecs_ready(*old(ecs)),
            world_wf(ecs_rows(*old(ecs))),
        ensures
            ecs_issued(*final(ecs)) == ecs_issued(*old(ecs)),
            ecs_ready(*final(ecs)),
            world_wf(ecs_rows(*final(ecs))),
            exists|draws: Seq<Seq<Draw>>| #[trigger]
                mischief_by_draws(ecs_rows(*old(ecs)), ecs_rows(*final(ecs)), draws),
    {
        let rows = snapshot(ecs);
        let ghost v = rows_view(rows@);
        let ghost mut draws: Seq<Seq<Draw>> = Seq::empty();
        let mut dice: Vec<Dice> = Vec::new();
        let mut i: usize = 0;
        while i < rows.len()
            invariant
                v == rows_view(rows@),
                i <= rows@.len(),
                dice@.len() == i,
                draws.len() == i,
                forall|j: int| 0 <= j < i && !aggressor(v[j]) ==> (#[trigger] draws[j]).len() == 0,
                forall|j: int| 0 <= j < i && aggressor(v[j]) ==> mischief_draws(#[trigger] draws[j]),
                forall|j: int| 0 <= j < i && aggressor(v[j]) ==> #[trigger] dice@[j] == dice_of_draws(draws[j]),
            decreases rows@.len() - i,
        {
            let r = &rows[i];
            let mut d: Dice = (1, 1, 0);
            let ghost mut ds: Seq<Draw> = Seq::empty();
            if r.aggressive && r.name.is_some() {
                let first = draw(1, 101);
                let chance = first.value();
                let mut chance2: usize = 1;
                let mut pick: usize = 0;
                proof {
                    ds = seq![first];
                }
                if chance > 99 {
                    let second = draw(1, 101);
                    chance2 = second.value();
                    proof {
                        ds = ds.push(second);
                    }
                    if chance2 > 96 && chance2 <= 98 {
                        let third = draw(0, 4);
                        pick = third.value();
                        proof {
                            ds = ds.push(third);
                        }
                    } else if chance2 > 98 {
                        let third = draw(0, 5);
                        pick = third.value();
                        proof {
                            ds = ds.push(third);
                        }
                    }
                }
                d = (chance, chance2, pick);
                assert(mischief_draws(ds));
                assert(d == dice_of_draws(ds));
            }
            let ghost prev = dice@;
            let ghost prev_draws = draws;
            dice.push(d);
            proof {
                draws = draws.push(ds);
                assert(v[i as int] == r@);
                assert forall|j: int| 0 <= j < i + 1 && aggressor(v[j]) implies #[trigger] dice@[j] == dice_of_draws(draws[j]) by {
                    if j < i {
                        assert(dice@[j] == prev[j]);
                        assert(draws[j] == prev_draws[j]);
                    }
                }
                assert forall|j: int| 0 <= j < i + 1 && !aggressor(v[j]) implies (#[trigger] draws[j]).len() == 0 by {
                    if j < i {
                        assert(draws[j] == prev_draws[j]);
                    }
                }
                assert forall|j: int| 0 <= j < i + 1 && aggressor(v[j]) implies mischief_draws(#[trigger] draws[j]) by {
                    if j < i {
                        assert(draws[j] == prev_draws[j]);
                    }
                }
            }
            i = i + 1;
        }
        proof {
            assert forall|j: int| 0 <= j < v.len() && aggressor(v[j]) implies rolls_in_range(
                (#[trigger] dice@[j]).0,
                dice@[j].1,
                dice@[j].2,
            ) by {
                assert(mischief_draws(draws[j]));
            }
        }
        self.run_with_dice(ecs, &dice);
        proof {
            let mapped = draws.map_values(|ds: Seq<Draw>| dice_of_draws(ds));
            assert forall|j: int| 0 <= j < v.len() implies #[trigger] rows_after_mischief(v, acts_of(dice@))[j]
                == rows_after_mischief(v, acts_of(mapped))[j] by {
                if aggressor(v[j]) {
                    assert(dice@[j] == dice_of_draws(draws[j]));
                    assert(mapped[j] == dice_of_draws(draws[j]));
                }
            }
            assert(rows_after_mischief(v, acts_of(dice@)) =~= rows_after_mischief(v, acts_of(mapped)));
            assert(mischief_by_draws(v, ecs_rows(*ecs), draws));
        }
    }
}

} // verus!

verus! {

/// The four roaming picks lead north, south, east and west.
pub proof fn roam_picks(pick: usize)
    requires
        pick < 4,
    ensures
        spec_direction_from(roam_word(pick)) == (if pick == 0 {
            Direction::N
        } else if pick == 1 {
            Direction::S
        } else if pick == 2 {
            Direction::E
        } else {
            Direction::W
        }),
{
    crate::constants::direction_letters();
}

/// A character stays idle unless the first roll exceeds 99, and it never
/// both roams and taunts.
pub proof fn mischief_needs_high_roll(chance: usize, chance2: usize, pick: usize)
    ensures
        chance <= 99 ==> spec_mischief(chance, chance2, pick) == Mischief::Idle,
        chance2 <= 96 ==> spec_mischief(chance, chance2, pick) == Mischief::Idle,
        rolls_in_range(chance, chance2, pick) ==> possible(spec_mischief(chance, chance2, pick)),
{
}

} // verus!
