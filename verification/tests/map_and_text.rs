use lera::aggression::{mischief, taunt, Mischief};
use lera::commands::{command_line_words, parse_command, player_name, welcome_text};
use lera::channel::ChannelPayload;
use lera::communication::pronoun;
use lera::components::map_location;
use lera::constants::Direction;
use lera::movement::{bounds_check, exits};
use lera::player::Player;
use lera::text::same_text;

#[test]
fn direction_from_reads_letters() {
    assert_eq!(Direction::from(String::from("n")), Direction::N);
    assert_eq!(Direction::from(String::from("s")), Direction::S);
    assert_eq!(Direction::from(String::from("e")), Direction::E);
    assert_eq!(Direction::from(String::from("w")), Direction::W);
    assert_eq!(Direction::from(String::from("x")), Direction::N);
    assert_eq!(Direction::from(String::from("")), Direction::N);
    assert_eq!(Direction::from(String::from("south")), Direction::N);
}

#[test]
fn bounds_check_inside_the_map() {
    assert_eq!(bounds_check((0, 0), &Direction::N), (true, (0, 1), "north", "south"));
    assert_eq!(bounds_check((3, 3), &Direction::W), (true, (2, 3), "west", "east"));
    assert_eq!(bounds_check((3, 3), &Direction::E), (true, (4, 3), "east", "west"));
    assert_eq!(bounds_check((3, 3), &Direction::S), (true, (3, 2), "south", "north"));
}

#[test]
fn bounds_check_at_the_edges() {
    assert_eq!(bounds_check((0, 9), &Direction::N), (false, (0, 9), "north", ""));
    assert_eq!(bounds_check((0, 0), &Direction::S), (false, (0, 0), "south", ""));
    assert_eq!(bounds_check((9, 5), &Direction::E), (false, (9, 5), "east", ""));
    assert_eq!(bounds_check((0, 5), &Direction::W), (false, (0, 5), "west", ""));
}

#[test]
fn step_round_trip_on_concrete_rooms() {
    let (ok, there, _, _) = bounds_check((4, 7), &Direction::N);
    assert!(ok);
    let (back_ok, back, _, _) = bounds_check(there, &Direction::S);
    assert!(back_ok);
    assert_eq!(back, (4, 7));
}

#[test]
fn exits_match_bounds_check() {
    assert_eq!(exits((0, 0)), "N E ");
    assert_eq!(exits((9, 9)), "S W ");
    assert_eq!(exits((5, 5)), "N S E W ");
    assert_eq!(exits((0, 9)), "S E ");
    for x in 0..10usize {
        for y in 0..10usize {
            let listed = exits((x, y));
            for (d, label) in [(Direction::N, "N "), (Direction::S, "S "), (Direction::E, "E "), (Direction::W, "W ")] {
                assert_eq!(listed.contains(label), bounds_check((x, y), &d).0);
            }
        }
    }
}

#[test]
fn map_location_keeps_address() {
    let loc = map_location(3, 4);
    assert_eq!(loc.address, (3, 4));
    assert_eq!(loc.description, "You stand on an open plain in the land of Lera.");
}

#[test]
fn pronoun_before_vowels() {
    assert_eq!(pronoun(&String::from("Orc")), "An");
    assert_eq!(pronoun(&String::from("Kobold")), "A");
    assert_eq!(pronoun(&String::from("elf")), "An");
    assert_eq!(pronoun(&String::from("Unicorn")), "An");
    assert_eq!(pronoun(&String::from("Marauder")), "A");
    assert_eq!(pronoun(&String::from("Dark-Elf")), "A");
}

#[test]
fn same_text_compares_characters() {
    assert!(same_text("look", "look"));
    assert!(!same_text("look", "loo"));
    assert!(!same_text("look", "book"));
    assert!(same_text("", ""));
}

fn expect_cmd(r: Result<ChannelPayload, String>) -> (u128, String) {
    match r {
        Ok(ChannelPayload::Cmd((id, c))) => (id, c),
        _ => panic!("expected a one-word command"),
    }
}

#[test]
fn parse_one_word_in_lower_case() {
    assert_eq!(expect_cmd(parse_command(7, &b"Look\r\n".to_vec())), (7, String::from("look")));
    assert_eq!(expect_cmd(parse_command(7, &b"  N  \n".to_vec())), (7, String::from("n")));
    assert_eq!(expect_cmd(parse_command(7, &b"w?!\n".to_vec())), (7, String::from("w?")));
    assert_eq!(expect_cmd(parse_command(9, &b"HELP".to_vec())), (9, String::from("help")));
}

#[test]
fn parse_two_words_as_target() {
    match parse_command(3, &b"Say Hello\n".to_vec()) {
        Ok(ChannelPayload::Target((id, c, t))) => {
            assert_eq!(id, 3);
            assert_eq!(c, "say");
            assert_eq!(t, "hello");
        }
        _ => panic!("expected a command with a target"),
    }
}

#[test]
fn parse_three_words_refused() {
    match parse_command(3, &b"Say Hello There\n".to_vec()) {
        Err(m) => assert_eq!(m, "Unknown command: Say"),
        _ => panic!("expected a refusal"),
    }
}

#[test]
fn command_words_of_blank_line() {
    assert_eq!(command_line_words(&b"\r\n".to_vec()).len(), 0);
    assert_eq!(command_line_words(&b"   \n".to_vec()).len(), 0);
    let ws = command_line_words(&b" go  north,now \n".to_vec());
    assert_eq!(ws, vec![b"go".to_vec(), b"northnow".to_vec()]);
}

#[test]
fn names_keep_letters_only() {
    assert_eq!(player_name(&b"Bob\r\n".to_vec()), Some(String::from("Bob")));
    assert_eq!(player_name(&b"a\n".to_vec()), None);
    assert_eq!(player_name(&b"\n".to_vec()), None);
    assert_eq!(player_name(&b"B0b!\n".to_vec()), Some(String::from("Bb")));
    assert_eq!(player_name(&b"Al Ice\n".to_vec()), Some(String::from("AlIce")));
    assert_eq!(player_name(&b"7 x\n".to_vec()), None);
}

#[test]
fn welcome_text_greets() {
    assert_eq!(welcome_text(&String::from("Bob")), "Welcome Bob!\n\n");
}

#[test]
fn mischief_from_dice() {
    assert_eq!(mischief(50, 100, 0), Mischief::Idle);
    assert_eq!(mischief(99, 100, 0), Mischief::Idle);
    assert_eq!(mischief(100, 50, 0), Mischief::Idle);
    assert_eq!(mischief(100, 96, 0), Mischief::Idle);
    assert_eq!(mischief(100, 97, 2), Mischief::Roam(Direction::E));
    assert_eq!(mischief(100, 98, 0), Mischief::Roam(Direction::N));
    assert_eq!(mischief(100, 98, 1), Mischief::Roam(Direction::S));
    assert_eq!(mischief(100, 97, 3), Mischief::Roam(Direction::W));
    assert_eq!(mischief(100, 99, 3), Mischief::Taunt(3));
    assert_eq!(mischief(100, 100, 4), Mischief::Taunt(4));
}

#[test]
fn taunts_carry_article_and_name() {
    assert_eq!(taunt(&String::from("Orc"), 0), "An Orc says, \"I'll eat your toes for breakfast!\"\n");
    assert_eq!(taunt(&String::from("Kobold"), 3), "A Kobold says, \"Buuuuuuuuuurp...\"\n");
    assert_eq!(taunt(&String::from("Marauder"), 4), "A Marauder says, \"You should watch your back...\"\n");
}

#[test]
fn player_new_and_rename() {
    for _ in 0..50 {
        let p = Player::new(5, String::from(""));
        assert_eq!(p.id, 5);
        assert!(p.location.0 < 9 && p.location.1 < 9);
    }
    let mut p = Player::new(6, String::from("x"));
    let at = p.location;
    p.setName(String::from("Zed"));
    assert_eq!(p.name, "Zed");
    assert_eq!(p.location, at);
    assert_eq!(p.id, 6);
}
