use lera::world::{listen_answer, split_spaces, strip_newlines, WorldAnswer};

#[test]
fn look_is_read_in_any_case() {
    let a = listen_answer("Bob", "LoOk\n");
    assert!(matches!(a, Some(WorldAnswer::Look)));
    assert_eq!(a.unwrap().reply(), "\n> ");
}

#[test]
fn a_player_without_a_name_gets_one() {
    match listen_answer("", "NAME Bob\n") {
        Some(WorldAnswer::NameSet(n)) => {
            assert_eq!(n, "Bob");
            assert_eq!(WorldAnswer::NameSet(n).reply(), "You have set your name to: Bob\n> ");
        },
        _ => panic!("expected a name to be set"),
    }
}

#[test]
fn a_name_is_set_only_once() {
    let a = listen_answer("Bob", "name Al");
    assert!(matches!(a, Some(WorldAnswer::NameKept)));
    assert_eq!(a.unwrap().reply(), "You can only set your name once.\n> ");
}

#[test]
fn an_unknown_word_is_named_back_as_typed() {
    match listen_answer("Bob", "Dance now\n") {
        Some(WorldAnswer::Unrecognized(w)) => {
            assert_eq!(w, "Dance");
            assert_eq!(WorldAnswer::Unrecognized(w).reply(), "Unrecognized command: Dance\n> ");
        },
        _ => panic!("expected an unrecognized command"),
    }
}

#[test]
fn a_leading_space_leaves_an_empty_command() {
    match listen_answer("Bob", " look") {
        Some(WorldAnswer::Unrecognized(w)) => assert_eq!(w, ""),
        _ => panic!("expected an unrecognized command"),
    }
}

#[test]
fn a_request_for_a_name_without_one_gets_no_answer() {
    assert!(listen_answer("", "name\n").is_none());
}

#[test]
fn lines_split_at_every_space() {
    assert_eq!(split_spaces("a  b"), vec!["a".to_string(), "".to_string(), "b".to_string()]);
    assert_eq!(split_spaces(""), vec!["".to_string()]);
    assert_eq!(strip_newlines("a\nb\n"), "ab");
}

#[test]
fn joining_registers_a_player_without_a_name() {
    let mut w = lera::world::PlayerWorld::new();
    let text = lera::world::join(&mut w, 3);
    assert_eq!(
        text,
        "Create a player by typing \"name {player name}\"\nSee other commands by typing \"help\"\n\n> "
    );
    let p = &w.player_list[&3];
    assert_eq!(p.id, 3);
    assert_eq!(p.name, "");
    assert!(p.location.0 < 9 && p.location.1 < 9);
    assert_eq!(w.player_list.len(), 1);
}

#[test]
fn draws_stay_in_their_range() {
    assert_eq!(lera::dice::draw(5, 6).value(), 5);
    for _ in 0..200 {
        let v = lera::dice::draw(1, 101).value();
        assert!(1 <= v && v <= 100);
    }
}
