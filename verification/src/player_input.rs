//! What the game does with a command from a player.

use vstd::prelude::*;
use vstd::string::StringExecFns;

use crate::channel::ChannelPayload;
use crate::components::spec_map_location;
use crate::constants::{spec_direction_from, Direction, TERMWIDTH};
use crate::ecs::{rows_with_moving, rows_with_speaking, rows_without};
use crate::game_state::{arrival_text, departure_text, issued_within, join_outcome, look_outcome, quit_outcome, GameState};
use crate::message::{msgs_view, notify_room, Outgoing};
use crate::room::room_text;
use crate::text::{same_text, wrapped};

verus! {

broadcast use vstd::std_specs::hash::group_hash_axioms;

/// The list of commands that `help` shows.
pub const HELP_TEXT: &'static str = "n s e w: Travel in the specified direction\nl or look: View your current location\ns or say: Speak to other players in your current location\nhelp: View the list of commands\nquit or exit: Leave the land of Lera\n\n";

/// What a player who joins twice reads.
pub const ALREADY_JOINED_TEXT: &'static str = "You are already joined to the game.\n";

/// A word that names a step.
pub open spec fn is_step_word(c: Seq<char>) -> bool {
    c == "n"@ || c == "s"@ || c == "e"@ || c == "w"@
}

/// A word that asks to look around.
pub open spec fn is_look_word(c: Seq<char>) -> bool {
    c == "l"@ || c == "look"@
}

/// A word that asks for the list of commands.
pub open spec fn is_help_word(c: Seq<char>) -> bool {
    c == "help"@
}

/// A word that asks to leave the game.
pub open spec fn is_quit_word(c: Seq<char>) -> bool {
    c == "quit"@ || c == "exit"@
}

/// A word that asks to say something.
pub open spec fn is_say_word(c: Seq<char>) -> bool {
    c == "s"@ || c == "say"@
}

/// What a player reads after a command the game does not know.
pub open spec fn unknown_text(c: Seq<char>) -> Seq<char> {
    "Unkown command: "@ + c + "\n"@
}

/// Whether a request can be served: the player it comes from has joined
/// and its entity is in the state that the command needs. On any other
/// request the game loop fails.
pub open spec fn input_ok(gs: GameState, input: Option<ChannelPayload>) -> bool {
    match input {
        None => true,
        Some(ChannelPayload::Cmd((id, cmd))) => {
            &&& gs.players@.contains_key(id)
            &&& if is_step_word(cmd@) {
                gs.joined_alive(id)
            } else if is_look_word(cmd@) || is_quit_word(cmd@) {
                gs.live_player(id)
            } else {
                gs.reachable(id)
            }
        },
        Some(ChannelPayload::Target((id, cmd, _target))) => {
            &&& gs.players@.contains_key(id)
            &&& if is_say_word(cmd@) {
                gs.joined_alive(id)
            } else {
                gs.reachable(id)
            }
        },
        Some(ChannelPayload::Join((id, _name))) => if gs.players@.contains_key(id) {
            gs.reachable(id)
        } else {
            gs.rows().len() < 4294967295
        },
    }
}

/// How a request changes the game (`before` to `after`) and what it
/// sends (`msgs`).
pub open spec fn input_outcome(
    before: GameState,
    input: Option<ChannelPayload>,
    after: GameState,
    msgs: Seq<(u128, Seq<char>)>,
) -> bool {
    &&& input is None ==> after == before && msgs.len() == 0
    &&& input matches Some(ChannelPayload::Cmd((id, cmd))) ==> {
            if is_step_word(cmd@) {
                &&& after.players == before.players
                &&& after.rows() == rows_with_moving(before.rows(), before.key_of(id), Some(spec_direction_from(cmd@)))
                &&& msgs.len() == 0
            } else if is_look_word(cmd@) {
                &&& after == before
                &&& msgs =~= seq![(
                    before.player_row_of(id).player.unwrap(),
                    room_text(before.rows(), before.key_of(id), before.player_row_of(id).location.unwrap()),
                )]
            } else if is_help_word(cmd@) {
                &&& after == before
                &&& msgs =~= seq![(before.player_row_of(id).player.unwrap(), wrapped(HELP_TEXT@, TERMWIDTH))]
            } else if is_quit_word(cmd@) {
                &&& after.players == before.players
                &&& after.rows() == rows_without(before.rows(), before.key_of(id))
                &&& msgs =~= notify_room(
                    after.rows(),
                    before.player_row_of(id).location.unwrap().address,
                    before.key_of(id),
                    wrapped(departure_text(before.player_row_of(id).name.unwrap()), TERMWIDTH),
                )
            } else {
                &&& after == before
                &&& msgs =~= seq![(before.player_row_of(id).player.unwrap(), wrapped(unknown_text(cmd@), TERMWIDTH))]
            }
        }
    &&& input matches Some(ChannelPayload::Target((id, cmd, target))) ==> {
            if is_say_word(cmd@) {
                &&& after.players == before.players
                &&& after.rows() == rows_with_speaking(before.rows(), before.key_of(id), Some(target@))
                &&& msgs.len() == 0
            } else {
                &&& after == before
                &&& msgs =~= seq![(before.player_row_of(id).player.unwrap(), wrapped(unknown_text(cmd@), TERMWIDTH))]
            }
        }
    &&& input matches Some(ChannelPayload::Join((id, name))) ==> {
            if before.players@.contains_key(id) {
                &&& after == before
                &&& msgs =~= seq![(before.player_row_of(id).player.unwrap(), wrapped(ALREADY_JOINED_TEXT@, TERMWIDTH))]
            } else {
                let arrivals = notify_room(after.rows(), (0, 0), after.key_of(id), wrapped(arrival_text(name@), TERMWIDTH));
                &&& join_outcome(before, id, name@, after, arrivals)
                &&& msgs =~= arrivals.push((id, room_text(after.rows(), after.key_of(id), spec_map_location(0, 0))))
            }
        }
}

/// Whether a request that joins a new player finds room in the store for
/// one more entity.
pub open spec fn join_room(gs: GameState, input: Option<ChannelPayload>) -> bool {
    input matches Some(ChannelPayload::Join((id, _name))) && !gs.players@.contains_key(id) ==> gs.room_to_allocate(0)
}

/// Serves one request from a connection, if there is one: steps, looks,
/// help, leaving, speech, unknown commands and joining.
pub fn player_input_system(gs: &mut GameState, player_input: Option<ChannelPayload>) -> (out: Vec<Outgoing>)
    requires
        old(gs).wf(),
        input_ok(*old(gs), player_input),
        join_room(*old(gs), player_input),
    ensures
        final(gs).wf(),
        input_outcome(*old(gs), player_input, *final(gs), msgs_view(out@)),
        issued_within(*old(gs), *final(gs), 1),
{
    let mut out: Vec<Outgoing> = Vec::new();
    match player_input {
        None => {},
        Some(payload) => {
            match payload {
                // single word commands without a target
                ChannelPayload::Cmd((id, cmd)) => {
                    let eid = gs.get_player_eid(id);
                    let c = cmd.as_str();
                    if same_text(c, "n") || same_text(c, "s") || same_text(c, "e") || same_text(c, "w") {
                        gs.add_mover(eid, Direction::from(cmd));
                    } else if same_text(c, "l") || same_text(c, "look") {
                        out.push(gs.print_location(id));
                    } else if same_text(c, "help") {
                        out.push(gs.msg_player(id, HELP_TEXT));
                    } else if same_text(c, "quit") || same_text(c, "exit") {
                        out = gs.remove_player(id);
                    } else {
                        let mut text = String::new();
                        text.append("Unkown command: ");
                        text.append(c);
                        text.append("\n");
                        out.push(gs.msg_player(id, text.as_str()));
                    }
                },
                // commands with a target
                ChannelPayload::Target((id, cmd, target)) => {
                    let eid = gs.get_player_eid(id);
                    let c = cmd.as_str();
                    if same_text(c, "s") || same_text(c, "say") {
                        gs.add_speaker(eid, target.as_str());
                    } else {
                        let mut text = String::new();
                        text.append("Unkown command: ");
                        text.append(c);
                        text.append("\n");
                        out.push(gs.msg_player(id, text.as_str()));
                    }
                },
                // a new player joins the game
                ChannelPayload::Join((id, name)) => {
                    if gs.players.contains_key(&id) {
                        out.push(gs.msg_player(id, ALREADY_JOINED_TEXT));
                    } else {
                        out = gs.join_player(id, name);
                        let view = gs.print_location(id);
                        let ghost prev = out@;
                        out.push(view);
                        assert(msgs_view(out@) =~= msgs_view(prev).push(view@));
                    }
                },
            }
        },
    }
    out
}

/// Whether the game can serve a request (see `input_ok`); the game loop
/// fails on a request that it cannot serve.
pub fn accepts(gs: &GameState, input: &Option<ChannelPayload>) -> (r: bool)
    requires
        gs.wf(),
    ensures
        r == input_ok(*gs, *input),
{
    match input {
        None => true,
        Some(ChannelPayload::Cmd((id, cmd))) => {
            if !gs.players.contains_key(id) {
                return false;
            }
            let c = cmd.as_str();
            if same_text(c, "n") || same_text(c, "s") || same_text(c, "e") || same_text(c, "w") {
                gs.is_joined_alive(*id)
            } else if same_text(c, "l") || same_text(c, "look") || same_text(c, "quit") || same_text(c, "exit") {
                gs.is_live_player(*id)
            } else {
                gs.is_reachable(*id)
            }
        },
        Some(ChannelPayload::Target((id, cmd, _target))) => {
            if !gs.players.contains_key(id) {
                return false;
            }
            let c = cmd.as_str();
            if same_text(c, "s") || same_text(c, "say") {
                gs.is_joined_alive(*id)
            } else {
                gs.is_reachable(*id)
            }
        },
        Some(ChannelPayload::Join((id, _name))) => {
            if gs.players.contains_key(id) {
                gs.is_reachable(*id)
            } else {
                gs.entity_count() < 4294967295
            }
        },
    }
}

/// The command words name one thing each: a look word or a quit word is
/// no step word, and a quit word is neither a look word nor `help`.
pub proof fn command_words_distinct(c: Seq<char>)
    ensures
        is_look_word(c) ==> !is_step_word(c),
        is_quit_word(c) ==> !is_step_word(c) && !is_look_word(c) && !is_help_word(c),
{
    reveal_strlit("n");
    reveal_strlit("s");
    reveal_strlit("e");
    reveal_strlit("w");
    reveal_strlit("l");
    reveal_strlit("look");
    reveal_strlit("help");
    reveal_strlit("quit");
    reveal_strlit("exit");
    assert("l"@[0] == 'l' && "n"@[0] == 'n' && "s"@[0] == 's' && "e"@[0] == 'e' && "w"@[0] == 'w');
    assert("look"@[0] == 'l' && "help"@[0] == 'h' && "quit"@[0] == 'q' && "exit"@[0] == 'e');
    assert("l"@.len() == 1 && "n"@.len() == 1 && "s"@.len() == 1 && "e"@.len() == 1 && "w"@.len() == 1);
    assert("look"@.len() == 4 && "help"@.len() == 4 && "quit"@.len() == 4 && "exit"@.len() == 4);
    assert("quit"@ != "e"@ && "exit"@ != "e"@ && "exit"@ != "look"@ && "exit"@ != "help"@);
    assert("quit"@ != "look"@ && "quit"@ != "help"@ && "exit"@ != "l"@ && "quit"@ != "l"@);
}

/// Serving a request does what the operation it names does: `l` or
/// `look` is `print_location`, `quit` or `exit` is `remove_player`, and a
/// new player's join is `join_player` followed by `print_location`.
pub proof fn requests_match_operations(
    before: GameState,
    input: Option<ChannelPayload>,
    after: GameState,
    msgs: Seq<(u128, Seq<char>)>,
)
    requires
        input_outcome(before, input, after, msgs),
    ensures
        input matches Some(ChannelPayload::Cmd((id, c))) ==> (is_look_word(c@) ==> look_outcome(before, id, after, msgs)),
        input matches Some(ChannelPayload::Cmd((id, c))) ==> (is_quit_word(c@) ==> quit_outcome(before, id, after, msgs)),
        input matches Some(ChannelPayload::Join((id, name))) ==> (!before.players@.contains_key(id) ==> exists|
            m1: Seq<(u128, Seq<char>)>,
            m2: Seq<(u128, Seq<char>)>,
        |
            join_outcome(before, id, name@, after, m1) && look_outcome(after, id, after, m2) && msgs == m1 + m2),
{
    match input {
        Some(ChannelPayload::Cmd((id, c))) => {
            command_words_distinct(c@);
        },
        Some(ChannelPayload::Join((id, name))) => {
            if !before.players@.contains_key(id) {
                let m1 = notify_room(after.rows(), (0, 0), after.key_of(id), wrapped(arrival_text(name@), TERMWIDTH));
                let m2 = seq![(id, room_text(after.rows(), after.key_of(id), spec_map_location(0, 0)))];
                assert(msgs =~= m1 + m2);
                assert(look_outcome(after, id, after, m2));
            }
        },
        _ => {},
    }
}

} // verus!
