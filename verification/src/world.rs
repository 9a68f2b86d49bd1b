//! The answers of the world's command loop: for every line a player
//! sends, the world looks at its first word and answers.

use vstd::prelude::*;
use vstd::string::{StrSliceExecFns, StringExecFns};

use std::collections::HashMap;

use crate::dice::{drawn_in, Draw};
use crate::player::Player;
use crate::text::{push_char, same_text};

verus! {

/// A line without its newline characters.
pub open spec fn without_newlines(s: Seq<char>) -> Seq<char> {
    s.filter(|c: char| c != '\n')
}

/// The pieces of a text between spaces, the empty ones included, as
/// `str::split(' ')` gives them; there is always at least one.
pub open spec fn space_pieces(s: Seq<char>) -> Seq<Seq<char>>
    decreases s.len(),
{
    if s.len() == 0 {
        seq![Seq::empty()]
    } else {
        let p = space_pieces(s.drop_last());
        if s.last() == ' ' {
            p.push(Seq::empty())
        } else {
            p.update(p.len() - 1, p.last().push(s.last()))
        }
    }
}

/// A text has at least one piece.
pub proof fn lemma_space_pieces_len(s: Seq<char>)
    ensures
        space_pieces(s).len() >= 1,
    decreases s.len(),
{
    if s.len() > 0 {
        lemma_space_pieces_len(s.drop_last());
    }
}

/// What `str::to_lowercase` makes of a text: its lower-case form by
/// Unicode's rules, where a character may become several.
pub uninterp spec fn lowercased(s: Seq<char>) -> Seq<char>;

/// The lower-case form of a text (`str::to_lowercase`). The result
/// depends on the text alone; the Unicode case mapping is not stated
/// here.
#[verifier::external_body]
fn lowercase(s: &str) -> (r: String)
    ensures
        r@ == lowercased(s@),
{
    s.to_lowercase()
}

/// What the world does with a line from a player.
pub enum WorldAnswer {
    /// A player without a name asked for one: it is told the name.
    NameSet(String),
    /// A player who has a name asked for another.
    NameKept,
    /// The player asked to look around.
    Look,
    /// The first word is no command; it is named back as it was typed.
    Unrecognized(String),
}

/// Whether `a` is the answer to a line whose pieces are `pieces` and
/// whose first piece reads `lowered` in lower case, from a player named
/// `name` (empty while it has no name).
pub open spec fn answers(a: WorldAnswer, name: Seq<char>, lowered: Seq<char>, pieces: Seq<Seq<char>>) -> bool {
    if lowered == "name"@ {
        if name.len() == 0 {
            a matches WorldAnswer::NameSet(n) && n@ == pieces[1]
        } else {
            a is NameKept
        }
    } else if lowered == "look"@ {
        a is Look
    } else {
        a matches WorldAnswer::Unrecognized(w) && w@ == pieces[0]
    }
}

/// What the world writes to the player once it has answered: the
/// message, then a new prompt. A look writes only the prompt, after the
/// surroundings.
pub open spec fn reply_text(a: WorldAnswer) -> Seq<char> {
    match a {
        WorldAnswer::NameSet(n) => "You have set your name to: "@ + n@ + "\n> "@,
        WorldAnswer::NameKept => "You can only set your name once.\n> "@,
        WorldAnswer::Look => "\n> "@,
        WorldAnswer::Unrecognized(w) => "Unrecognized command: "@ + w@ + "\n> "@,
    }
}

impl WorldAnswer {
    /// The text written to the player for this answer.
    pub fn reply(&self) -> (r: String)
        ensures
            r@ == reply_text(*self),
    {
        match self {
            WorldAnswer::NameSet(n) => {
                let mut r = String::from_str("You have set your name to: ");
                r.append(n.as_str());
                r.append("\n> ");
                r
            },
            WorldAnswer::NameKept => String::from_str("You can only set your name once.\n> "),
            WorldAnswer::Look => String::from_str("\n> "),
            WorldAnswer::Unrecognized(w) => {
                let mut r = String::from_str("Unrecognized command: ");
                r.append(w.as_str());
                r.append("\n> ");
                r
            },
        }
    }
}

/// A line without its newlines.
pub fn strip_newlines(line: &str) -> (r: String)
    ensures
        r@ == without_newlines(line@),
{
    let n = line.unicode_len();
    let mut r = String::new();
    let mut i: usize = 0;
    while i < n
        invariant
            n == line@.len(),
            i <= n,
            r@ == without_newlines(line@.take(i as int)),
        decreases n - i,
    {
        let c = line.get_char(i);
        proof {
            assert(line@.take(i + 1) =~= line@.take(i as int).push(c));
            line@.take(i as int).lemma_filter_push(c, |c: char| c != '\n');
        }
        if c != '\n' {
            push_char(&mut r, c);
        }
        i = i + 1;
    }
    assert(line@.take(n as int) =~= line@);
    r
}

/// The pieces of a text between spaces, empty ones included.
pub fn split_spaces(s: &str) -> (r: Vec<String>)
    ensures
        r@.map_values(|p: String| p@) == space_pieces(s@),
{
    let n = s.unicode_len();
    let mut done: Vec<String> = Vec::new();
    let mut cur = String::new();
    let mut i: usize = 0;
    while i < n
        invariant
            n == s@.len(),
            i <= n,
            done@.map_values(|p: String| p@).push(cur@) == space_pieces(s@.take(i as int)),
        decreases n - i,
    {
        let c = s.get_char(i);
        let ghost before = done@.map_values(|p: String| p@).push(cur@);
        proof {
            assert(s@.take(i + 1).drop_last() =~= s@.take(i as int));
            assert(s@.take(i + 1).last() == c);
        }
        if c == ' ' {
            let finished = cur;
            cur = String::new();
            done.push(finished);
            assert(done@.map_values(|p: String| p@).push(cur@) =~= before.push(Seq::empty()));
        } else {
            let ghost old_cur = cur@;
            push_char(&mut cur, c);
            assert(done@.map_values(|p: String| p@).push(cur@) =~= before.update(
                before.len() - 1,
                old_cur.push(c),
            ));
        }
        i = i + 1;
    }
    assert(s@.take(n as int) =~= s@);
    let ghost last = cur@;
    let ghost prev = done@.map_values(|p: String| p@);
    done.push(cur);
    assert(done@.map_values(|p: String| p@) =~= prev.push(last));
    done
}

/// The answer to a line whose pieces are `pieces` and whose first piece
/// reads `lowered` in lower case, from a player named `name` (empty while
/// it has no name). A request for a name needs a second piece.
pub fn answer_for(name: &str, lowered: &str, pieces: &Vec<String>) -> (r: WorldAnswer)
    requires
        pieces@.len() >= 1,
        lowered@ == "name"@ && name@.len() == 0 ==> pieces@.len() >= 2,
    ensures
        answers(r, name@, lowered@, pieces@.map_values(|p: String| p@)),
{
    let ghost views = pieces@.map_values(|p: String| p@);
    if same_text(lowered, "name") {
        if name.unicode_len() == 0 {
            let n = pieces[1].clone();
            assert(views[1] == pieces@[1]@);
            WorldAnswer::NameSet(n)
        } else {
            WorldAnswer::NameKept
        }
    } else if same_text(lowered, "look") {
        WorldAnswer::Look
    } else {
        let w = pieces[0].clone();
        assert(views[0] == pieces@[0]@);
        WorldAnswer::Unrecognized(w)
    }
}

/// The world's answer to a line from a player named `name` (empty while
/// it has no name): the newlines are dropped, the line is split at every
/// space, and the first piece, in lower case, is the command. `None` for
/// a request for a name that names none, which the world cannot answer.
pub fn listen_answer(name: &str, line: &str) -> (r: Option<WorldAnswer>)
    ensures
        ({
            let pieces = space_pieces(without_newlines(line@));
            let lowered = lowercased(pieces[0]);
            if lowered == "name"@ && name@.len() == 0 && pieces.len() < 2 {
                r is None
            } else {
                r matches Some(a) && answers(a, name@, lowered, pieces)
            }
        }),
{
    let stripped = strip_newlines(line);
    let pieces = split_spaces(stripped.as_str());
    let ghost views = pieces@.map_values(|p: String| p@);
    proof {
        lemma_space_pieces_len(stripped@);
        assert(views[0] == pieces@[0]@);
    }
    let lowered = lowercase(pieces[0].as_str());
    if same_text(lowered.as_str(), "name") && name.unicode_len() == 0 && pieces.len() < 2 {
        None
    } else {
        Some(answer_for(name, lowered.as_str(), &pieces))
    }
}

/// The players of the world, by connection.
pub struct PlayerWorld {
    pub player_list: HashMap<u128, Player>,
}

impl PlayerWorld {
    /// A world without players.
    pub fn new() -> (w: PlayerWorld)
        ensures
            w.player_list@ == Map::<u128, Player>::empty(),
    {
        PlayerWorld { player_list: HashMap::new() }
    }
}

/// What a new connection reads after the title: how to name a player,
/// where to find the other commands, then a prompt.
pub open spec fn join_text() -> Seq<char> {
    "Create a player by typing \"name {player name}\"\nSee other commands by typing \"help\"\n\n> "@
}

/// Registers a player without a name for connection `id`, in a room
/// picked at random as `Player::new` picks it, and gives what the
/// connection reads after the title.
pub fn join(world: &mut PlayerWorld, id: u128) -> (r: String)
    ensures
        r@ == join_text(),
        final(world).player_list@ == old(world).player_list@.insert(id, final(world).player_list@[id]),
        final(world).player_list@[id].id == id,
        final(world).player_list@[id].name@ == Seq::<char>::empty(),
        exists|dx: Draw, dy: Draw|
            #![trigger drawn_in(dx, 0, 9), drawn_in(dy, 0, 9)]
            drawn_in(dx, 0, 9) && drawn_in(dy, 0, 9) && final(world).player_list@[id].location == (dx.value(), dy.value()),
{
    broadcast use vstd::std_specs::hash::group_hash_axioms;

    let p = Player::new(id, String::new());
    world.player_list.insert(id, p);
    String::from_str("Create a player by typing \"name {player name}\"\nSee other commands by typing \"help\"\n\n> ")
}

} // verus!
