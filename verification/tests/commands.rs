use tourney::command::{split_at_mark, split_words, Command};
use tourney::error::BracketError;
use tourney::game::GameId;
use tourney::tournament::{Reply, Tournament};

fn names(list: &[&str]) -> Vec<String> {
    list.iter().map(|s| s.to_string()).collect()
}

fn id(round: u64, position: u64) -> GameId {
    GameId { round, position }
}

fn slots(run: &Tournament, at: GameId) -> (String, String, String) {
    let game = run.bracket().lookup(at).unwrap();
    (game.top_team.clone(), game.bottom_team.clone(), game.winner.clone())
}

fn three(top: &str, bottom: &str, winner: &str) -> (String, String, String) {
    (top.to_string(), bottom.to_string(), winner.to_string())
}

#[test]
fn a_text_is_cut_at_every_blank() {
    assert_eq!(split_words("declare 1-1 A"), names(&["declare", "1-1", "A"]));
    assert_eq!(split_words(""), names(&[""]));
    assert_eq!(split_words("one"), names(&["one"]));
    assert_eq!(split_words("a  b"), names(&["a", "", "b"]));
    assert_eq!(split_words(" a"), names(&["", "a"]));
    assert_eq!(split_words("a "), names(&["a", ""]));
    assert_eq!(split_words(" "), names(&["", ""]));
    assert_eq!(split_words("é ü"), names(&["é", "ü"]));
    for text in ["declare 1-1 A", "", " ", "a  b ", "  x", "tab\tstays one"] {
        let expected: Vec<String> = text.split(' ').map(|s| s.to_string()).collect();
        assert_eq!(split_words(text), expected);
    }
}

#[test]
fn a_text_is_cut_at_any_mark() {
    assert_eq!(split_at_mark("a,b,,c", ','), names(&["a", "b", "", "c"]));
    assert_eq!(split_at_mark("a b", ','), names(&["a b"]));
    assert_eq!(split_at_mark(",", ','), names(&["", ""]));
}

#[test]
fn commands_are_read_by_their_exact_form() {
    assert!(matches!(Command::parse("stop"), Command::Stop));
    assert!(matches!(Command::parse("stop "), Command::Other));
    assert!(matches!(Command::parse("stop now"), Command::Other));
    assert!(matches!(Command::parse(""), Command::Other));
    assert!(matches!(Command::parse("hello there"), Command::Other));
    assert!(matches!(Command::parse("declared 1-1 A"), Command::Other));
    assert!(matches!(Command::parse(" declare 1-1 A"), Command::Other));
    assert!(matches!(Command::parse("declare"), Command::Usage));
    assert!(matches!(Command::parse("declare 1-1"), Command::Usage));
    assert!(matches!(Command::parse("declare 1-1 A B"), Command::Usage));
    assert!(matches!(Command::parse("declare  1-1 A"), Command::Usage));
    assert!(matches!(Command::parse("declare 1-1 A "), Command::Usage));
    match Command::parse("declare 1-1 A") {
        Command::Declare { game, name } => {
            assert_eq!(game, "1-1");
            assert_eq!(name, "A");
        }
        other => panic!("read as {:?}", other),
    }
    match Command::parse("declare x ") {
        Command::Declare { game, name } => {
            assert_eq!(game, "x");
            assert_eq!(name, "");
        }
        other => panic!("read as {:?}", other),
    }
}

#[test]
fn a_run_answers_declarations_until_the_final_is_won() {
    let mut run = Tournament::start(names(&["A", "B", "C", "D"]), false).unwrap();
    assert_eq!(run.participants(), &names(&["A", "B", "C", "D"]));

    let reply = run.respond("declare 1-1 A");
    assert!(matches!(&reply, Reply::Advanced { name, next } if name == "A" && *next == id(2, 1)));
    assert!(!reply.ends());
    assert_eq!(reply.message(), Some("A's next game is 2-1".to_string()));

    let reply = run.respond("declare 1-2 D");
    assert!(matches!(&reply, Reply::Advanced { name, next } if name == "D" && *next == id(2, 1)));
    assert_eq!(slots(&run, id(2, 1)), three("A", "D", ""));

    let reply = run.respond("declare 2-1 A");
    assert!(matches!(&reply, Reply::Won { name } if name == "A"));
    assert!(reply.ends());
    assert_eq!(reply.message(), Some("A won the tournament!".to_string()));
    assert_eq!(run.bracket().champion(), Some("A".to_string()));
}

#[test]
fn a_run_refuses_what_the_bracket_refuses() {
    let mut run = Tournament::start(names(&["A", "B", "C", "D"]), false).unwrap();

    let reply = run.respond("declare 1-3 A");
    assert!(matches!(reply, Reply::Refused(BracketError::UnknownGame)));
    assert_eq!(reply.message(), Some("Please enter a valid game and team for this round.".to_string()));
    assert!(matches!(run.respond("declare 1-01 A"), Reply::Refused(BracketError::UnknownGame)));
    assert!(matches!(run.respond("declare first A"), Reply::Refused(BracketError::UnknownGame)));

    let reply = run.respond("declare 1-1 C");
    assert!(matches!(reply, Reply::Refused(BracketError::InvalidWinner)));
    assert_eq!(reply.message(), Some("Please enter a valid game and team for this round.".to_string()));
    assert!(matches!(run.respond("declare 1-1 "), Reply::Refused(BracketError::InvalidWinner)));
    assert_eq!(slots(&run, id(1, 1)), three("A", "B", ""));
    assert_eq!(slots(&run, id(2, 1)), three("", "", ""));

    assert!(matches!(run.respond("declare 1-1 B"), Reply::Advanced { .. }));
    let reply = run.respond("declare 1-1 A");
    assert!(matches!(reply, Reply::Refused(BracketError::AlreadyDecided)));
    assert!(!reply.ends());
    assert_eq!(reply.message(), Some("A winner for this game has already been declared.".to_string()));
    assert_eq!(slots(&run, id(1, 1)), three("A", "B", "B"));
    assert_eq!(slots(&run, id(2, 1)), three("B", "", ""));
}

#[test]
fn a_run_ends_on_stop_and_passes_over_chatter() {
    let mut run = Tournament::start(names(&["A", "B"]), false).unwrap();
    let reply = run.respond("good game everyone");
    assert!(matches!(reply, Reply::Ignored));
    assert!(!reply.ends());
    assert_eq!(reply.message(), None);

    let reply = run.respond("declare 1-1");
    assert!(matches!(reply, Reply::Usage));
    assert!(!reply.ends());
    assert_eq!(
        reply.message(),
        Some("You should use the format `declare [round #]-[game #] [winner's name]`".to_string())
    );

    let reply = run.respond("stop");
    assert!(matches!(reply, Reply::Ended));
    assert!(reply.ends());
    assert_eq!(reply.message(), Some("Tournament has been ended.".to_string()));
    assert_eq!(slots(&run, id(1, 1)), three("A", "B", ""));
}

#[test]
fn a_run_needs_a_participant() {
    assert_eq!(Tournament::start(Vec::new(), false).err(), Some(BracketError::NotEnoughParticipants));
    assert_eq!(Tournament::start(Vec::new(), true).err(), Some(BracketError::NotEnoughParticipants));
    assert_eq!(Tournament::seat(Vec::new()).err(), Some(BracketError::NotEnoughParticipants));
}

#[test]
fn seating_keeps_the_order_given() {
    let teams = names(&["D", "A", "C", "B", "E"]);
    let run = Tournament::seat(teams.clone()).unwrap();
    assert_eq!(run.participants(), &teams);
    assert_eq!(slots(&run, id(1, 1)), three("D", "A", ""));
    assert_eq!(slots(&run, id(1, 2)), three("C", "B", ""));
    assert_eq!(slots(&run, id(1, 3)), three("E", "", ""));
}

#[test]
fn a_random_start_seats_the_same_teams_in_some_order() {
    let teams: Vec<String> = (1..=24).map(|i| format!("T{}", i)).collect();
    let mut moved = false;
    for _ in 0..8 {
        let run = Tournament::start(teams.clone(), true).unwrap();
        let seated = run.participants().clone();
        let mut sorted = seated.clone();
        sorted.sort();
        let mut expected = teams.clone();
        expected.sort();
        assert_eq!(sorted, expected);
        // The bracket is drawn from the order in which the teams were seated.
        for (k, pair) in seated.chunks(2).enumerate() {
            let (top, bottom, _) = slots(&run, id(1, k as u64 + 1));
            assert_eq!(top, pair[0]);
            assert_eq!(bottom, pair[1]);
        }
        if seated != teams {
            moved = true;
        }
    }
    assert!(moved);
}
