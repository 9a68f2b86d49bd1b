//! Speech: what is said in a room reaches the players standing there.

use vstd::prelude::*;
use vstd::string::StringExecFns;

use crate::constants::TERMWIDTH;
use crate::ecs::{
    ecs_issued, ascending, ecs_ready, ecs_rows, entity_key, remove_speaking, rows_view, snapshot, RowView};
use crate::message::{msgs_view, notify_room, push_notify_room, Outgoing};
use crate::text::{fill, wrapped};

verus! {

/// Whether a character is a vowel, in either case.
pub open spec fn is_vowel(c: char) -> bool {
    c == 'a' || c == 'A' || c == 'e' || c == 'E' || c == 'o' || c == 'O' || c == 'i' || c == 'I'
        || c == 'u' || c == 'U'
}

/// The article that goes before a name: "An" before a vowel, "A" otherwise.
pub open spec fn spec_pronoun(name: Seq<char>) -> Seq<char> {
    if is_vowel(name[0]) {
        "An"@
    } else {
        "A"@
    }
}

/// The article that goes before a name.
pub fn pronoun(name: &String) -> (r: &'static str)
    requires
        name@.len() > 0,
    ensures
        r@ == spec_pronoun(name@),
{
    let c = name.as_str().get_char(0);
    if c == 'a' || c == 'A' || c == 'e' || c == 'E' || c == 'o' || c == 'O' || c == 'i' || c == 'I'
        || c == 'u' || c == 'U' {
        "An"
    } else {
        "A"
    }
}

/// Whether a row says something this tick and can be heard: it has
/// speech, a name and a place.
pub open spec fn speaker(r: RowView) -> bool {
    &&& r.speaking is Some
    &&& r.name is Some
    &&& r.location is Some
}

/// How a speaker's words are shown: a player's chat style behind its
/// name, anything else's as they are.
pub open spec fn speech_text(r: RowView) -> Seq<char> {
    if r.player is Some {
        r.name.unwrap() + ": "@ + r.speaking.unwrap() + "\n"@
    } else {
        r.speaking.unwrap()
    }
}

/// The messages that the speakers among `speakers` send to the players
/// of `all` who stand with them, speaker by speaker in store order.
pub open spec fn speech_messages(speakers: Seq<RowView>, all: Seq<RowView>) -> Seq<(u128, Seq<char>)>
    decreases speakers.len(),
{
    if speakers.len() == 0 {
        Seq::empty()
    } else {
        let r = speakers.last();
        speech_messages(speakers.drop_last(), all) + (if speaker(r) {
            notify_room(all, r.location.unwrap().address, r.key, wrapped(speech_text(r), TERMWIDTH))
        } else {
            Seq::empty()
        })
    }
}

/// A row with its speech taken away.
pub open spec fn hushed(r: RowView) -> RowView {
    RowView { speaking: None, ..r }
}

/// The rows with every speech taken away.
pub open spec fn all_hushed(rows: Seq<RowView>) -> Seq<RowView> {
    rows.map_values(|r: RowView| hushed(r))
}

/// Delivers what every entity says this tick to the other players in its
/// room, then clears all speech.
pub struct CommSystem {}

impl CommSystem {
    /// Sends every speech to the players in the speaker's room, speaker by
    /// speaker in store order, then takes all speech away.
    pub fn run(&mut self, ecs: &mut specs::World) -> (out: Vec<Outgoing>)
        requires
            ecs_ready(*old(ecs)),
        ensures
            ecs_issued(*final(ecs)) == ecs_issued(*old(ecs)),
            ecs_ready(*final(ecs)),
            msgs_view(out@) == speech_messages(ecs_rows(*old(ecs)), ecs_rows(*old(ecs))),
            ecs_rows(*final(ecs)) == all_hushed(ecs_rows(*old(ecs))),
    {
        let rows = snapshot(ecs);
        let ghost v = rows_view(rows@);
        let mut out: Vec<Outgoing> = Vec::new();
        let mut i: usize = 0;
        while i < rows.len()
            invariant
                v == rows_view(rows@),
                v == ecs_rows(*ecs),
                ecs_issued(*ecs) == ecs_issued(*old(ecs)),
                i <= rows@.len(),
                msgs_view(out@) == speech_messages(v.take(i as int), v),
            decreases rows@.len() - i,
        {
            let r = &rows[i];
            proof {
                assert(v.take(i + 1).drop_last() =~= v.take(i as int));
                assert(v.take(i + 1).last() == r@);
            }
            match (&r.speaking, &r.name, &r.location) {
                (Some(msg), Some(name), Some(loc)) => {
                    let mut text = String::new();
                    if r.player.is_some() {
                        text.append(name.as_str());
                        text.append(": ");
                        text.append(msg.as_str());
                        text.append("\n");
                    } else {
                        text.append(msg.as_str());
                    }
                    let filled = fill(text.as_str(), TERMWIDTH);
                    push_notify_room(&mut out, &rows, loc.address, r.entity, &filled);
                },
                _ => {},
            }
            i = i + 1;
        }
        assert(v.take(rows@.len() as int) =~= v);
        // remove speaking components
        let mut k: usize = 0;
        while k < rows.len()
            invariant
                v == rows_view(rows@),
                ascending(v),
                k <= rows@.len(),
                ecs_ready(*ecs),
                ecs_issued(*ecs) == ecs_issued(*old(ecs)),
                ecs_rows(*ecs) == Seq::new(v.len(), |j: int| if j < k { hushed(v[j]) } else { v[j] }),
            decreases rows@.len() - k,
        {
            let r = &rows[k];
            if r.speaking.is_some() {
                let ghost before = ecs_rows(*ecs);
                remove_speaking(ecs, r.entity);
                proof {
                    assert(rows@[k as int]@.key == entity_key(r.entity));
                    assert(ecs_rows(*ecs) =~= Seq::new(v.len(), |j: int| if j < k + 1 { hushed(v[j]) } else { v[j] }));
                }
            } else {
                proof {
                    assert(v[k as int].speaking is None);
                    assert(hushed(v[k as int]) == v[k as int]);
                    assert(ecs_rows(*ecs) =~= Seq::new(v.len(), |j: int| if j < k + 1 { hushed(v[j]) } else { v[j] }));
                }
            }
            k = k + 1;
        }
        assert(ecs_rows(*ecs) =~= all_hushed(v));
        out
    }
}

} // verus!

verus! {

/// Whether some speaker among `speakers` stands in a room with the player
/// of connection `id`, who is not that speaker, and says `text` to it.
pub open spec fn heard_from(speakers: Seq<RowView>, all: Seq<RowView>, id: u128, text: Seq<char>) -> bool {
    exists|s: int|
        0 <= s < speakers.len() && speaker(speakers[s]) && text == wrapped(speech_text(speakers[s]), TERMWIDTH)
            && crate::message::some_listener(all, speakers[s].location.unwrap().address, speakers[s].key, id)
}

/// Speech reaches only players who stand in the speaker's room, never
/// the speaker itself, and it reaches them as the speaker's words.
pub proof fn speech_reaches_only_the_room(speakers: Seq<RowView>, all: Seq<RowView>)
    ensures
        forall|i: int|
            0 <= i < speech_messages(speakers, all).len() ==> heard_from(
                speakers,
                all,
                (#[trigger] speech_messages(speakers, all)[i]).0,
                speech_messages(speakers, all)[i].1,
            ),
    decreases speakers.len(),
{
    if speakers.len() > 0 {
        let p = speakers.drop_last();
        speech_reaches_only_the_room(p, all);
        let r = speakers.last();
        let m = speech_messages(speakers, all);
        let mp = speech_messages(p, all);
        assert forall|i: int| 0 <= i < m.len() implies heard_from(speakers, all, (#[trigger] m[i]).0, m[i].1) by {
            if i < mp.len() {
                assert(m[i] == mp[i]);
                assert(heard_from(p, all, mp[i].0, mp[i].1));
                let s = choose|s: int|
                    0 <= s < p.len() && speaker(p[s]) && mp[i].1 == wrapped(speech_text(p[s]), TERMWIDTH)
                        && crate::message::some_listener(all, p[s].location.unwrap().address, p[s].key, mp[i].0);
                assert(speakers[s] == p[s]);
            } else {
                let n = crate::message::notify_room(all, r.location.unwrap().address, r.key, wrapped(speech_text(r), TERMWIDTH));
                crate::message::notify_room_reaches_listeners(all, r.location.unwrap().address, r.key, wrapped(speech_text(r), TERMWIDTH));
                assert(m[i] == n[i - mp.len()]);
                assert(speakers[speakers.len() - 1] == r);
            }
        }
    }
}

} // verus!
