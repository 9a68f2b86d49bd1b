use lera::channel::ChannelPayload;
use lera::components::Location;
use lera::constants::Direction;
use lera::ecs::{snapshot, EntityRow};
use lera::game_state::GameState;
use lera::message::Outgoing;
use lera::player_input::{accepts, player_input_system, HELP_TEXT};

const ROOM: &str = "You stand on an open plain in the land of Lera.";

fn fill(s: &str) -> String {
    textwrap::fill(s, 80)
}

fn room_text(desc: &str, exits: &str, players: &str, npcs: &str) -> String {
    format!("\n{}\nExits: {}\n{}{}\n", fill(desc), exits, fill(players), fill(npcs))
}

fn rows(gs: &GameState) -> Vec<EntityRow> {
    snapshot(&gs.ecs)
}

fn row_of_player(gs: &GameState, id: u128) -> Option<EntityRow> {
    rows(gs).into_iter().find(|r| r.player == Some(id))
}

fn location_of(gs: &GameState, id: u128) -> Option<Location> {
    row_of_player(gs, id).and_then(|r| r.location)
}

fn cmd(id: u128, c: &str) -> Option<ChannelPayload> {
    Some(ChannelPayload::Cmd((id, String::from(c))))
}

fn target(id: u128, c: &str, t: &str) -> Option<ChannelPayload> {
    Some(ChannelPayload::Target((id, String::from(c), String::from(t))))
}

fn join(id: u128, name: &str) -> Option<ChannelPayload> {
    Some(ChannelPayload::Join((id, String::from(name))))
}

fn texts(out: &[Outgoing]) -> Vec<(u128, String)> {
    out.iter().map(|m| (m.to, m.text.clone())).collect()
}

fn two_players() -> GameState {
    let mut gs = GameState::new();
    let out = player_input_system(&mut gs, join(1, "Alice"));
    assert_eq!(texts(&out), vec![(1, room_text(ROOM, "N E ", "", ""))]);
    let out = player_input_system(&mut gs, join(2, "Bob"));
    assert_eq!(
        texts(&out),
        vec![(1, fill("Bob has arrived in Lera\n")), (2, room_text(ROOM, "N E ", "Alice ", ""))]
    );
    gs
}

#[test]
fn new_game_is_empty() {
    let gs = GameState::new();
    assert_eq!(gs.entity_count(), 0);
    assert!(gs.players.is_empty());
}

#[test]
fn join_then_lookup() {
    let mut gs = two_players();
    assert!(gs.is_live_player(1));
    assert!(gs.is_live_player(2));
    let e = gs.get_player_eid(2);
    let data = gs.get_player_data(2);
    assert_eq!(data.0, e);
    assert_eq!(data.1, "Bob");
    assert_eq!(data.2.address, (0, 0));
    assert_eq!(data.3, 2);
    assert_eq!(gs.entity_count(), 2);
}

#[test]
fn joining_twice_is_refused() {
    let mut gs = two_players();
    let out = player_input_system(&mut gs, join(1, "Alice"));
    assert_eq!(texts(&out), vec![(1, fill("You are already joined to the game.\n"))]);
    assert_eq!(gs.entity_count(), 2);
}

#[test]
fn look_shows_room() {
    let mut gs = two_players();
    let out = player_input_system(&mut gs, cmd(2, "look"));
    assert_eq!(texts(&out), vec![(2, room_text(ROOM, "N E ", "Alice ", ""))]);
    let out = player_input_system(&mut gs, cmd(1, "l"));
    assert_eq!(texts(&out), vec![(1, room_text(ROOM, "N E ", "Bob ", ""))]);
}

#[test]
fn help_lists_commands() {
    let mut gs = two_players();
    let out = player_input_system(&mut gs, cmd(1, "help"));
    assert_eq!(texts(&out), vec![(1, fill(HELP_TEXT))]);
    assert!(HELP_TEXT.starts_with("n s e w: Travel in the specified direction\n"));
}

#[test]
fn unknown_commands_are_named() {
    let mut gs = two_players();
    let out = player_input_system(&mut gs, cmd(1, "dance"));
    assert_eq!(texts(&out), vec![(1, fill("Unkown command: dance\n"))]);
    let out = player_input_system(&mut gs, target(1, "wave", "bob"));
    assert_eq!(texts(&out), vec![(1, fill("Unkown command: wave\n"))]);
}

#[test]
fn a_step_moves_and_tells_the_room() {
    let mut gs = two_players();
    let out = gs.tick(cmd(1, "n"));
    assert_eq!(
        texts(&out),
        vec![
            (2, fill("Alice exits to the north\n")),
            (1, room_text(ROOM, "N S E ", "", "")),
        ]
    );
    assert_eq!(location_of(&gs, 1).unwrap().address, (0, 1));
    assert_eq!(location_of(&gs, 2).unwrap().address, (0, 0));
    assert!(rows(&gs).iter().all(|r| r.moving.is_none()));
    // Bob follows and is announced to Alice in the room he reaches.
    let out = gs.tick(cmd(2, "n"));
    assert_eq!(
        texts(&out),
        vec![
            (1, fill("Bob enters from the north\n")),
            (2, room_text(ROOM, "N S E ", "Alice ", "")),
        ]
    );
}

#[test]
fn a_refused_step_is_reported() {
    let mut gs = two_players();
    let out = gs.tick(cmd(1, "s"));
    assert_eq!(texts(&out), vec![(1, fill("There is no exit to the south\n"))]);
    assert_eq!(location_of(&gs, 1).unwrap().address, (0, 0));
    let out = gs.tick(cmd(1, "w"));
    assert_eq!(texts(&out), vec![(1, fill("There is no exit to the west\n"))]);
}

#[test]
fn speech_reaches_the_room_only() {
    let mut gs = two_players();
    let out = gs.tick(target(1, "say", "hello"));
    assert_eq!(texts(&out), vec![(2, fill("Alice: hello\n"))]);
    assert!(rows(&gs).iter().all(|r| r.speaking.is_none()));
    // after Alice walks away, Bob's words do not reach her
    let _ = gs.tick(cmd(1, "e"));
    let out = gs.tick(target(2, "s", "anyone"));
    assert_eq!(texts(&out), vec![]);
}

#[test]
fn quitting_leaves_the_room() {
    let mut gs = two_players();
    let out = player_input_system(&mut gs, cmd(1, "quit"));
    assert_eq!(texts(&out), vec![(2, fill("Alice has left the land of Lera\n"))]);
    assert!(!gs.is_joined_alive(1));
    assert!(gs.players.contains_key(&1));
    assert_eq!(gs.entity_count(), 1);
    // a request from the player who left cannot be served
    assert!(!accepts(&gs, &cmd(1, "look")));
    assert!(!accepts(&gs, &cmd(1, "n")));
    assert!(accepts(&gs, &cmd(2, "look")));
    let out = player_input_system(&mut gs, cmd(2, "exit"));
    assert_eq!(texts(&out), vec![]);
    assert_eq!(gs.entity_count(), 0);
}

#[test]
fn accepts_checks_requests() {
    let gs = two_players();
    assert!(accepts(&gs, &None));
    assert!(accepts(&gs, &cmd(1, "look")));
    assert!(!accepts(&gs, &cmd(3, "look")));
    assert!(accepts(&gs, &join(3, "Carol")));
    assert!(accepts(&gs, &join(1, "Alice")));
    assert!(accepts(&gs, &target(2, "say", "hi")));
}

#[test]
fn msg_player_wraps_text() {
    let mut gs = two_players();
    let long = "word ".repeat(30);
    let m = gs.msg_player(1, &long);
    assert_eq!(m.to, 1);
    assert_eq!(m.text, fill(&long));
    assert_ne!(m.text, long);
    assert!(m.text.lines().all(|l| l.chars().count() <= 80));
}

#[test]
fn add_mover_and_speaker_mark_entities() {
    let mut gs = two_players();
    let e = gs.get_player_eid(1);
    gs.add_mover(e, Direction::E);
    gs.add_speaker(e, "hi there");
    let r = row_of_player(&gs, 1).unwrap();
    assert_eq!(r.moving, Some(Direction::E));
    assert_eq!(r.speaking, Some(String::from("hi there")));
}

#[test]
fn spawning_fills_the_map() {
    let mut gs = GameState::new();
    gs.init();
    let all = rows(&gs);
    assert_eq!(all.len(), 99);
    let names = ["Kobold", "Orc", "Dark-Elf", "Marauder"];
    for r in &all {
        assert!(r.npc && r.aggressive && r.player.is_none());
        assert!(names.contains(&r.name.as_deref().unwrap()));
        let (x, y) = r.location.unwrap().address;
        assert!(x <= 9 && y <= 9);
        assert!(r.speaking.is_none());
    }
    // the dice are rolled: names and rooms differ among the characters
    let mut seen_names: Vec<String> = all.iter().map(|r| r.name.clone().unwrap()).collect();
    seen_names.sort();
    seen_names.dedup();
    assert!(seen_names.len() > 1);
    let mut seen_rooms: Vec<(usize, usize)> = all.iter().map(|r| r.location.unwrap().address).collect();
    seen_rooms.sort();
    seen_rooms.dedup();
    assert!(seen_rooms.len() > 1);
    // the game runs on with them; nobody is there to read anything
    for _ in 0..200 {
        let out = gs.tick(None);
        assert!(out.is_empty());
    }
    assert_eq!(rows(&gs).len(), 99);
    for r in rows(&gs) {
        let (x, y) = r.location.unwrap().address;
        assert!(x <= 9 && y <= 9);
    }
}

#[test]
fn npcs_are_announced_with_articles() {
    let mut gs = GameState::new();
    let _ = player_input_system(&mut gs, join(1, "Alice"));
    gs.init();
    // Alice sees the characters that share her room in a look.
    let here: Vec<String> = rows(&gs)
        .iter()
        .filter(|r| r.npc && r.location.unwrap().address == (0, 0))
        .map(|r| format!("{} ", r.name.clone().unwrap()))
        .collect();
    let out = player_input_system(&mut gs, cmd(1, "look"));
    assert_eq!(texts(&out), vec![(1, room_text(ROOM, "N E ", "", &here.concat()))]);
}

#[test]
fn spawning_follows_the_picks() {
    let mut gs = GameState::new();
    lera::npc_manager::spawn_npcs_with(&mut gs, &vec![(0, 0, 1, None), (3, 4, 0, Some(2)), (9, 9, 3, None)]);
    let all = rows(&gs);
    assert_eq!(all.len(), 3);
    assert_eq!(all[0].name.as_deref(), Some("Orc"));
    assert_eq!(all[0].location.unwrap().address, (0, 0));
    assert_eq!(all[0].moving, None);
    assert_eq!(all[1].name.as_deref(), Some("Kobold"));
    assert_eq!(all[1].location.unwrap().address, (3, 4));
    assert_eq!(all[1].moving, Some(Direction::E));
    assert_eq!(all[2].name.as_deref(), Some("Marauder"));
    assert_eq!(all[2].location.unwrap().address, (9, 9));
    assert!(all.iter().all(|r| r.npc && r.aggressive && r.player.is_none()));
}

#[test]
fn aggression_follows_the_dice() {
    let mut gs = GameState::new();
    lera::npc_manager::spawn_npcs_with(&mut gs, &vec![(0, 0, 1, None), (0, 0, 0, None), (5, 5, 2, None)]);
    let mut sys = lera::aggression::AggressionSystem {};
    sys.run_with_dice(&mut gs.ecs, &vec![(100, 99, 3), (100, 97, 1), (42, 1, 0)]);
    let all = rows(&gs);
    assert_eq!(all[0].speaking.as_deref(), Some("An Orc says, \"Buuuuuuuuuurp...\"\n"));
    assert_eq!(all[0].moving, None);
    assert_eq!(all[1].moving, Some(Direction::S));
    assert_eq!(all[1].speaking, None);
    assert_eq!(all[2].moving, None);
    assert_eq!(all[2].speaking, None);
    // a player in the room hears the taunt on the next tick, and sees the Kobold go
    let _ = player_input_system(&mut gs, join(1, "Alice"));
    let mut comm = lera::communication::CommSystem {};
    let out = comm.run(&mut gs.ecs);
    assert_eq!(texts(&out), vec![(1, fill("An Orc says, \"Buuuuuuuuuurp...\"\n"))]);
    let mut mv = lera::movement::MoveSystem {};
    let out = mv.run(&mut gs.ecs);
    assert_eq!(texts(&out), vec![]);
    assert_eq!(rows(&gs)[1].location.unwrap().address, (0, 0));
}

#[test]
fn connections_map_to_distinct_entities() {
    let mut gs = two_players();
    let _ = player_input_system(&mut gs, cmd(1, "quit"));
    let _ = player_input_system(&mut gs, join(3, "Carol"));
    let a = gs.get_player_eid(1);
    let c = gs.get_player_eid(3);
    assert_ne!(a, c);
    assert!(gs.is_live_player(3));
    assert!(!gs.is_joined_alive(1));
}
