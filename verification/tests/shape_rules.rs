use tourney::bracket::Bracket;
use tourney::error::BracketError;
use tourney::game::GameId;
use tourney::shape::{next_position, unpaired};
use tourney::tournament::Tournament;

fn numbered(count: usize) -> Vec<String> {
    (1..=count).map(|i| format!("P{}", i)).collect()
}

#[test]
fn the_last_of_an_odd_number_is_unpaired() {
    assert!(unpaired(1, 1));
    assert!(unpaired(3, 3));
    assert!(unpaired(7, 7));
    assert!(!unpaired(2, 2));
    assert!(!unpaired(1, 3));
    assert!(!unpaired(2, 3));
    assert!(!unpaired(4, 4));
    assert!(!unpaired(3, 5));
    assert!(!unpaired(0, 0));
    assert!(unpaired(u64::MAX, u64::MAX));
}

#[test]
fn two_positions_lead_into_one() {
    assert_eq!(next_position(1), 1);
    assert_eq!(next_position(2), 1);
    assert_eq!(next_position(3), 2);
    assert_eq!(next_position(4), 2);
    assert_eq!(next_position(9), 5);
    assert_eq!(next_position(u64::MAX), 1 << 63);
}

#[test]
fn an_unpaired_game_feeds_a_game_alone() {
    for n in 1..=33usize {
        let bracket = Bracket::new(&numbered(n)).unwrap();
        for round in 1..bracket.rounds() {
            let games = bracket.round_len(round);
            for position in 1..=games {
                let next = bracket.lookup(GameId { round, position }).unwrap().next_game.unwrap();
                assert_eq!(next, GameId { round: round + 1, position: next_position(position) });
                let partner = if position % 2 == 1 { position + 1 } else { position - 1 };
                let has_partner = bracket.lookup(GameId { round, position: partner }).is_some();
                assert_eq!(has_partner, !unpaired(position, games));
            }
        }
    }
}

#[test]
fn a_run_takes_declarations_by_id() {
    let mut run = Tournament::seat(numbered(3)).unwrap();
    let first = GameId { round: 1, position: 1 };
    let last = GameId { round: 2, position: 1 };
    assert_eq!(run.declare(first, "P3".to_string()), Err(BracketError::InvalidWinner));
    assert_eq!(run.declare(first, "P2".to_string()), Ok(Some(last)));
    assert_eq!(run.declare(first, "P1".to_string()), Err(BracketError::AlreadyDecided));
    assert_eq!(run.declare(GameId { round: 2, position: 2 }, "P1".to_string()), Err(BracketError::UnknownGame));
    assert_eq!(run.declare(last, "P2".to_string()), Ok(None));
    assert_eq!(run.bracket().champion(), Some("P2".to_string()));
    assert_eq!(run.participants(), &numbered(3));
}
