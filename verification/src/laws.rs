//! What holds of every bracket: the sizes of its rounds, the links between
//! its games, and the effect of a declaration.

use vstd::prelude::*;
use vstd::arithmetic::power2::{lemma2_to64, lemma_pow2_unfold, pow2};
use crate::error::BracketError;
use crate::game::{GameId, GameView, Stage};
use crate::model::{initial, BracketView};
use crate::shape::{
    half_up, is_unpaired, lemma_feeders, lemma_final_round, lemma_next_is_fed, lemma_only_feeders,
    lemma_round_len_bounds, lemma_rounds_after_bounds, lower_feeder, round_count, round_len,
    rounds_after, upper_feeder,
};

verus! {

/// Round 1 of the bracket drawn for `n >= 1` participants holds `n / 2`
/// games, rounded up. Every round before the last holds at least two games
/// and is followed by a round of half as many, rounded up; the last round
/// holds one. The games of a round are those at positions 1 up to the size
/// of the round.
pub proof fn round_sizes_halve(names: Seq<Seq<char>>, round: nat)
    requires
        names.len() >= 1,
        1 <= round <= round_count(names.len()),
    ensures
        round_len(names.len(), 1) == (names.len() + 1) / 2,
        round < round_count(names.len()) ==> round_len(names.len(), round) >= 2 && round_len(
            names.len(),
            round + 1,
        ) == (round_len(names.len(), round) + 1) / 2,
        round == round_count(names.len()) ==> round_len(names.len(), round) == 1,
        forall|id: GameId|
            id.round == round ==> (#[trigger] initial(names).has(id) <==> 1 <= id.position <= round_len(
                names.len(),
                round,
            )),
{
    lemma_final_round(names.len(), round);
    lemma_round_len_bounds(names.len(), round);
}

/// A round of `games >= 2` games is followed by as many rounds as the
/// binary logarithm of `games`, rounded up.
proof fn lemma_rounds_after_log2(games: nat)
    requires
        games >= 2,
    ensures
        rounds_after(games) >= 2,
        pow2((rounds_after(games) - 2) as nat) < games <= pow2((rounds_after(games) - 1) as nat),
    decreases games,
{
    let rest = half_up(games);
    lemma_rounds_after_bounds(rest);
    lemma2_to64();
    if rest >= 2 {
        lemma_rounds_after_log2(rest);
        lemma_pow2_unfold((rounds_after(games) - 1) as nat);
        lemma_pow2_unfold((rounds_after(games) - 2) as nat);
    } else {
        assert(games == 2);
        assert(rounds_after(games) == 2) by {
            assert(rounds_after(1) == 1);
            assert(half_up(2) == 1);
        }
    }
}

/// The bracket for `n >= 2` participants has as many rounds as the binary
/// logarithm of `n`, rounded up: the one number `r` with
/// `2^(r-1) < n <= 2^r`. A single participant gets one round of one game.
pub proof fn round_count_is_log2(entrants: nat)
    requires
        entrants >= 1,
    ensures
        entrants == 1 ==> round_count(entrants) == 1,
        entrants >= 2 ==> round_count(entrants) >= 1 && pow2((round_count(entrants) - 1) as nat)
            < entrants <= pow2(round_count(entrants)),
{
    let first = half_up(entrants);
    lemma_rounds_after_bounds(first);
    lemma2_to64();
    if entrants >= 2 {
        if first >= 2 {
            lemma_rounds_after_log2(first);
            lemma_pow2_unfold(rounds_after(first));
            lemma_pow2_unfold((rounds_after(first) - 1) as nat);
        } else {
            assert(entrants == 2);
        }
    }
}

/// The bracket drawn for a list of participants is well formed.
pub proof fn initial_is_well_formed(names: Seq<Seq<char>>)
    requires
        1 <= names.len() <= usize::MAX,
    ensures
        initial(names).well_formed(),
{
    let v = initial(names);
    assert forall|id: GameId| v.has(id) && id.round >= 2 implies #[trigger] v.balanced_at(id) by {}
}

/// Every game but the final has exactly one next game, which is a game of
/// the following round; the final has none. A game past round 1 is the next
/// game of its upper feeder and of its lower feeder and of no other game,
/// both games of the round before. The lower feeder is missing, and the
/// game then has a single feeder, exactly where the upper feeder is the
/// unpaired last game of a round with an odd number of games. No game leads
/// into a game of round 1.
pub proof fn links_are_exact(v: BracketView, id: GameId)
    requires
        v.well_formed(),
        v.has(id),
    ensures
        id.round < round_count(v.entrants) ==> v.games[id].next is Some && v.has(v.games[id].next->0)
            && v.games[id].next->0.round == id.round + 1,
        id.round == round_count(v.entrants) ==> v.games[id].next is None,
        forall|from: GameId|
            id.round >= 2 ==> (v.has(from) && #[trigger] v.games[from].next == Some(id) <==> from
                == upper_feeder(id) || (from == lower_feeder(id) && v.has(from))),
        id.round >= 2 ==> v.has(upper_feeder(id)) && upper_feeder(id) != lower_feeder(id)
            && upper_feeder(id).round == id.round - 1 && lower_feeder(id).round == id.round - 1,
        id.round >= 2 ==> (!v.has(lower_feeder(id)) <==> is_unpaired(
            upper_feeder(id).position as nat,
            round_len(v.entrants, (id.round - 1) as nat),
        )),
        forall|from: GameId| id.round == 1 && v.has(from) ==> #[trigger] v.games[from].next != Some(id),
{
    let n = v.entrants;
    if id.round < round_count(n) {
        lemma_next_is_fed(n, id);
    }
    if id.round == 1 {
        assert forall|from: GameId| v.has(from) implies #[trigger] v.games[from].next != Some(id) by {
            if v.games[from].next == Some(id) {
                lemma_only_feeders(n, from, id);
            }
        }
    }
    if id.round >= 2 {
        lemma_feeders(n, id);
        lemma_round_len_bounds(n, (id.round - 1) as nat);
        assert forall|from: GameId|
            (v.has(from) && #[trigger] v.games[from].next == Some(id)) <==> (from == upper_feeder(id) || (from
                == lower_feeder(id) && v.has(from))) by {
            if v.has(from) && v.games[from].next == Some(id) {
                lemma_only_feeders(n, from, id);
            }
            if from == upper_feeder(id) {
                assert(v.has(from));
            }
        }
    }
}

/// A game moves forward only. A participant who joins takes it from empty
/// to partial and from partial to ready, and changes neither a ready nor a
/// decided game's stage; a recorded winner makes it decided.
pub proof fn stages_advance(game: GameView, name: Seq<char>)
    requires
        name.len() > 0,
    ensures
        game.stage() == Stage::Empty ==> game.with_team(name).stage() == Stage::Partial,
        game.stage() == Stage::Partial ==> game.with_team(name).stage() == Stage::Ready,
        game.stage() == Stage::Ready ==> game.with_team(name) == game,
        game.stage() == Stage::Decided ==> game.with_team(name).stage() == Stage::Decided,
        game.with_winner(name).stage() == Stage::Decided,
{
}

/// Once a declaration on a game has been accepted, any further declaration
/// on that game, whatever the name, is refused as already decided and
/// changes nothing: not the winner, not a slot of the game, not a slot of
/// the next game.
pub proof fn second_declaration_is_refused(v: BracketView, id: GameId, first: Seq<char>, second: Seq<char>)
    requires
        v.well_formed(),
        v.declare_result(id, first) is Ok,
    ensures
        v.declare_state(id, first).declare_result(id, second) == Err::<Option<GameId>, BracketError>(
            BracketError::AlreadyDecided,
        ),
        v.declare_state(id, first).declare_state(id, second) == v.declare_state(id, first),
{
    if v.games[id].next is Some {
        lemma_next_is_fed(v.entrants, id);
    }
}

/// An accepted declaration on a game that has a next game fills exactly one
/// slot of the next game, a slot that was vacant, with the declared name;
/// the other slot and the winner of the next game stay as they were. The
/// declared game gets its winner and keeps its slots, and every other game
/// stays as it was.
pub proof fn winner_fills_one_slot(v: BracketView, id: GameId, name: Seq<char>)
    requires
        v.well_formed(),
        v.declare_result(id, name) is Ok,
    ensures
        name.len() > 0,
        v.declare_state(id, name).games[id] == v.games[id].with_winner(name),
        v.games[id].next matches Some(next) ==> {
            let before = v.games[next];
            let after = v.declare_state(id, name).games[next];
            &&& v.has(next)
            &&& after.winner == before.winner
            &&& after.filled() == before.filled() + 1
            &&& {
                ||| before.top.len() == 0 && after.top == name && after.bottom == before.bottom
                ||| before.top.len() > 0 && before.bottom.len() == 0 && after.bottom == name && after.top
                    == before.top
            }
        },
        forall|other: GameId|
            v.has(other) && other != id && Some(other) != v.games[id].next ==> #[trigger] v.declare_state(
                id,
                name,
            ).games[other] == v.games[other],
{
    if v.games[id].next is Some {
        v.lemma_next_has_room(id, name);
        lemma_next_is_fed(v.entrants, id);
    }
}

} // verus!
