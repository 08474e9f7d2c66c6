use tourney::bracket::Bracket;
use tourney::error::BracketError;
use tourney::game::{GameId, Stage};
use tourney::render::render;

fn names(list: &[&str]) -> Vec<String> {
    list.iter().map(|s| s.to_string()).collect()
}

fn numbered(count: usize) -> Vec<String> {
    (1..=count).map(|i| format!("P{}", i)).collect()
}

fn id(round: u64, position: u64) -> GameId {
    GameId { round, position }
}

fn slots(bracket: &Bracket, at: GameId) -> (String, String) {
    let game = bracket.lookup(at).unwrap();
    (game.top_team.clone(), game.bottom_team.clone())
}

fn pair(top: &str, bottom: &str) -> (String, String) {
    (top.to_string(), bottom.to_string())
}

/// Everything a bracket holds, game by game.
fn snapshot(bracket: &Bracket) -> Vec<(GameId, String, String, String, Option<GameId>)> {
    let mut all = Vec::new();
    for row in bracket.rows() {
        let game = bracket.lookup(id(row.round, row.position)).unwrap();
        all.push((
            game.id,
            game.top_team.clone(),
            game.bottom_team.clone(),
            game.winner.clone(),
            game.next_game,
        ));
    }
    all
}

fn ceil_log2(n: u64) -> u64 {
    let mut rounds = 0;
    let mut reach = 1u64;
    while reach < n {
        reach *= 2;
        rounds += 1;
    }
    rounds
}

#[test]
fn four_participants_play_to_a_champion() {
    let mut bracket = Bracket::new(&names(&["A", "B", "C", "D"])).unwrap();
    assert_eq!(slots(&bracket, id(1, 1)), pair("A", "B"));
    assert_eq!(slots(&bracket, id(1, 2)), pair("C", "D"));
    assert_eq!(slots(&bracket, id(2, 1)), pair("", ""));
    assert!(bracket.lookup(id(1, 3)).is_none());
    assert!(bracket.lookup(id(3, 1)).is_none());
    assert_eq!(bracket.len(), 3);
    assert_eq!(bracket.rounds(), 2);
    assert_eq!(bracket.champion(), None);

    assert_eq!(bracket.declare(id(1, 1), "A".to_string()), Ok(Some(id(2, 1))));
    assert_eq!(slots(&bracket, id(2, 1)), pair("A", ""));
    assert_eq!(bracket.declare(id(1, 2), "D".to_string()), Ok(Some(id(2, 1))));
    assert_eq!(slots(&bracket, id(2, 1)), pair("A", "D"));
    assert_eq!(bracket.champion(), None);
    assert_eq!(bracket.declare(id(2, 1), "A".to_string()), Ok(None));
    assert_eq!(bracket.lookup(id(2, 1)).unwrap().winner, "A");
    assert_eq!(bracket.champion(), Some("A".to_string()));
}

#[test]
fn three_participants_leave_the_last_alone_until_declared() {
    let mut bracket = Bracket::new(&names(&["A", "B", "C"])).unwrap();
    assert_eq!(bracket.round_len(1), 2);
    assert_eq!(slots(&bracket, id(1, 1)), pair("A", "B"));
    assert_eq!(slots(&bracket, id(1, 2)), pair("C", ""));
    assert_eq!(bracket.lookup(id(1, 2)).unwrap().stage(), Stage::Partial);
    assert_eq!(bracket.lookup(id(1, 2)).unwrap().winner, "");
    // Nobody is moved on by the draw: round 2 is vacant.
    assert_eq!(slots(&bracket, id(2, 1)), pair("", ""));
    // The lone participant moves on by a declaration like any other.
    assert_eq!(bracket.declare(id(1, 2), "C".to_string()), Ok(Some(id(2, 1))));
    assert_eq!(slots(&bracket, id(2, 1)), pair("C", ""));
    assert_eq!(bracket.declare(id(1, 1), "B".to_string()), Ok(Some(id(2, 1))));
    assert_eq!(slots(&bracket, id(2, 1)), pair("C", "B"));
}

#[test]
fn five_participants_carry_a_bye_through_two_rounds() {
    let mut bracket = Bracket::new(&names(&["A", "B", "C", "D", "E"])).unwrap();
    assert_eq!(bracket.rounds(), 3);
    assert_eq!((bracket.round_len(1), bracket.round_len(2), bracket.round_len(3)), (3, 2, 1));
    assert_eq!(bracket.len(), 6);
    assert_eq!(slots(&bracket, id(1, 3)), pair("E", ""));
    // The unpaired game of round 1 has a game of its own in round 2.
    assert_eq!(bracket.lookup(id(1, 3)).unwrap().next_game, Some(id(2, 2)));
    assert_eq!(bracket.lookup(id(2, 2)).unwrap().next_game, Some(id(3, 1)));
    assert_eq!(bracket.declare(id(1, 3), "E".to_string()), Ok(Some(id(2, 2))));
    assert_eq!(slots(&bracket, id(2, 2)), pair("E", ""));
    assert_eq!(slots(&bracket, id(3, 1)), pair("", ""));
    assert_eq!(bracket.declare(id(2, 2), "E".to_string()), Ok(Some(id(3, 1))));
    assert_eq!(slots(&bracket, id(3, 1)), pair("E", ""));
}

#[test]
fn one_participant_gets_a_single_game() {
    let mut bracket = Bracket::new(&names(&["A"])).unwrap();
    assert_eq!(bracket.len(), 1);
    assert_eq!(bracket.rounds(), 1);
    assert_eq!(bracket.round_len(1), 1);
    assert_eq!(slots(&bracket, id(1, 1)), pair("A", ""));
    assert_eq!(bracket.lookup(id(1, 1)).unwrap().next_game, None);
    assert_eq!(bracket.declare(id(1, 1), "A".to_string()), Ok(None));
    assert_eq!(bracket.champion(), Some("A".to_string()));
}

#[test]
fn no_participants_is_refused() {
    assert_eq!(Bracket::new(&Vec::new()).err(), Some(BracketError::NotEnoughParticipants));
}

#[test]
fn a_name_from_neither_slot_is_refused_and_changes_nothing() {
    let mut bracket = Bracket::new(&names(&["A", "B", "C", "D"])).unwrap();
    let before = snapshot(&bracket);
    assert_eq!(bracket.declare(id(1, 1), "C".to_string()), Err(BracketError::InvalidWinner));
    assert_eq!(bracket.declare(id(1, 1), "".to_string()), Err(BracketError::InvalidWinner));
    assert_eq!(bracket.declare(id(2, 1), "A".to_string()), Err(BracketError::InvalidWinner));
    assert_eq!(bracket.declare(id(2, 1), "".to_string()), Err(BracketError::InvalidWinner));
    assert_eq!(snapshot(&bracket), before);
}

#[test]
fn an_unknown_game_is_refused() {
    let mut bracket = Bracket::new(&names(&["A", "B", "C", "D"])).unwrap();
    let before = snapshot(&bracket);
    assert_eq!(bracket.declare(id(1, 3), "A".to_string()), Err(BracketError::UnknownGame));
    assert_eq!(bracket.declare(id(3, 1), "A".to_string()), Err(BracketError::UnknownGame));
    assert_eq!(bracket.declare(id(0, 1), "A".to_string()), Err(BracketError::UnknownGame));
    assert_eq!(bracket.declare(id(1, 0), "A".to_string()), Err(BracketError::UnknownGame));
    assert_eq!(bracket.declare(id(u64::MAX, u64::MAX), "A".to_string()), Err(BracketError::UnknownGame));
    assert_eq!(snapshot(&bracket), before);
}

#[test]
fn a_second_declaration_is_refused_and_changes_nothing() {
    let mut bracket = Bracket::new(&names(&["A", "B", "C", "D"])).unwrap();
    assert_eq!(bracket.declare(id(1, 1), "A".to_string()), Ok(Some(id(2, 1))));
    let before = snapshot(&bracket);
    for name in ["A", "B", "C", "", "nobody"] {
        assert_eq!(bracket.declare(id(1, 1), name.to_string()), Err(BracketError::AlreadyDecided));
        assert_eq!(snapshot(&bracket), before);
    }
    assert_eq!(slots(&bracket, id(2, 1)), pair("A", ""));
}

#[test]
fn a_winner_fills_one_vacant_slot_of_the_next_game() {
    let mut bracket = Bracket::new(&names(&["A", "B", "C", "D"])).unwrap();
    let before = snapshot(&bracket);
    assert_eq!(bracket.declare(id(1, 2), "C".to_string()), Ok(Some(id(2, 1))));
    let after = snapshot(&bracket);
    assert_eq!(after[0], before[0]);
    assert_eq!(after[1], (id(1, 2), "C".to_string(), "D".to_string(), "C".to_string(), Some(id(2, 1))));
    assert_eq!(after[2], (id(2, 1), "C".to_string(), "".to_string(), "".to_string(), None));
    // The second winner takes the other slot and leaves the first alone.
    assert_eq!(bracket.declare(id(1, 1), "B".to_string()), Ok(Some(id(2, 1))));
    assert_eq!(slots(&bracket, id(2, 1)), pair("C", "B"));
}

#[test]
fn round_sizes_halve_for_every_count() {
    for n in 1..=70usize {
        let bracket = Bracket::new(&numbered(n)).unwrap();
        let rounds = bracket.rounds();
        let mut expected = ((n + 1) / 2) as u64;
        assert_eq!(bracket.round_len(1), expected);
        let mut total = 0;
        for round in 1..=rounds {
            assert_eq!(bracket.round_len(round), expected);
            for position in 1..=expected {
                assert!(bracket.lookup(id(round, position)).is_some());
            }
            assert!(bracket.lookup(id(round, expected + 1)).is_none());
            total += expected;
            if round < rounds {
                assert!(expected >= 2);
                expected = (expected + 1) / 2;
            } else {
                assert_eq!(expected, 1);
            }
        }
        assert_eq!(bracket.len() as u64, total);
        assert_eq!(bracket.round_len(0), 0);
        assert_eq!(bracket.round_len(rounds + 1), 0);
    }
}

#[test]
fn round_count_is_the_rounded_up_logarithm() {
    assert_eq!(Bracket::new(&numbered(1)).unwrap().rounds(), 1);
    for n in 2..=130u64 {
        let bracket = Bracket::new(&numbered(n as usize)).unwrap();
        assert_eq!(bracket.rounds(), ceil_log2(n));
    }
    assert_eq!(Bracket::new(&numbered(2)).unwrap().rounds(), 1);
    assert_eq!(Bracket::new(&numbered(8)).unwrap().rounds(), 3);
    assert_eq!(Bracket::new(&numbered(9)).unwrap().rounds(), 4);
}

#[test]
fn every_game_is_linked_to_the_game_after_it() {
    for n in 1..=40usize {
        let bracket = Bracket::new(&numbered(n)).unwrap();
        let rounds = bracket.rounds();
        let all = snapshot(&bracket);
        for (at, _, _, _, next) in &all {
            if at.round < rounds {
                assert_eq!(*next, Some(id(at.round + 1, (at.position + 1) / 2)));
            } else {
                assert_eq!(*next, None);
            }
            let feeders: Vec<GameId> =
                all.iter().filter(|g| g.4 == Some(*at)).map(|g| g.0).collect();
            if at.round == 1 {
                assert!(feeders.is_empty());
            } else if 2 * at.position <= bracket.round_len(at.round - 1) {
                assert_eq!(feeders, vec![id(at.round - 1, 2 * at.position - 1), id(at.round - 1, 2 * at.position)]);
            } else {
                assert_eq!(feeders, vec![id(at.round - 1, 2 * at.position - 1)]);
            }
        }
    }
}

#[test]
fn rows_come_round_by_round_and_by_position() {
    let bracket = Bracket::new(&names(&["A", "B", "C", "D", "E"])).unwrap();
    let rows = bracket.rows();
    let shown: Vec<(u64, u64, &str, &str)> =
        rows.iter().map(|r| (r.round, r.position, r.top.as_str(), r.bottom.as_str())).collect();
    assert_eq!(
        shown,
        vec![(1, 1, "A", "B"), (1, 2, "C", "D"), (1, 3, "E", ""), (2, 1, "", ""), (2, 2, "", ""), (3, 1, "", "")]
    );
}

#[test]
fn rows_are_rendered_as_text() {
    let bracket = Bracket::new(&names(&["A", "B", "C"])).unwrap();
    let rows = bracket.rows();
    assert_eq!(rows[0].text(), "\nRound 1 Game 1:\n\tA\n\tB\n");
    assert_eq!(
        render(&rows),
        "\nRound 1 Game 1:\n\tA\n\tB\n\nRound 1 Game 2:\n\tC\n\t\n\nRound 2 Game 1:\n\t\n\t\n"
    );
    assert_eq!(render(&Vec::new()), "");
}

#[test]
fn a_full_tournament_of_many_runs_to_its_champion() {
    let n = 37;
    let mut bracket = Bracket::new(&numbered(n)).unwrap();
    let rounds = bracket.rounds();
    for round in 1..=rounds {
        for position in 1..=bracket.round_len(round) {
            let top = bracket.lookup(id(round, position)).unwrap().top_team.clone();
            assert!(!top.is_empty());
            let expected = if round < rounds { Some(id(round + 1, (position + 1) / 2)) } else { None };
            assert_eq!(bracket.declare(id(round, position), top), Ok(expected));
        }
    }
    assert_eq!(bracket.champion(), Some("P1".to_string()));
    for (_, _, _, winner, _) in snapshot(&bracket) {
        assert!(!winner.is_empty());
    }
}

#[test]
fn an_empty_name_leaves_its_slot_to_the_next_participant() {
    let bracket = Bracket::new(&names(&["", "B", "C"])).unwrap();
    assert_eq!(slots(&bracket, id(1, 1)), pair("B", ""));
    assert_eq!(slots(&bracket, id(1, 2)), pair("C", ""));
}
