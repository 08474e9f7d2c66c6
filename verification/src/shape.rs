//! The shape of a single-elimination bracket: how many rounds it has, how
//! many games each round holds, and which game feeds which.
//!
//! Byes are resolved by hand. When a round holds an odd number of games, its
//! last game is still given a game of its own in the following round, which
//! then has a single feeder and never sees a second participant; the lone
//! participant is moved on by an ordinary declaration.

use vstd::prelude::*;
use crate::game::GameId;

verus! {

/// Half of `count`, rounded up: the number of pairs that `count` items make
/// when the last one may stand alone.
pub open spec fn half_up(count: nat) -> nat {
    (count + 1) / 2
}

/// The number of games in round `round` of a bracket for `entrants`
/// participants. Rounds are counted from 1.
pub open spec fn round_len(entrants: nat, round: nat) -> nat
    decreases round,
{
    if round <= 1 {
        half_up(entrants)
    } else {
        half_up(round_len(entrants, (round - 1) as nat))
    }
}

/// The number of rounds that are played from a round of `games` games up to
/// and including the final.
pub open spec fn rounds_after(games: nat) -> nat
    decreases games,
{
    if games <= 1 {
        1
    } else {
        1 + rounds_after(half_up(games))
    }
}

/// The number of rounds of a bracket for `entrants` participants.
pub open spec fn round_count(entrants: nat) -> nat {
    rounds_after(half_up(entrants))
}

/// The number of games that come before round `round` when the games are
/// laid out round by round.
pub open spec fn round_start(entrants: nat, round: nat) -> nat
    decreases round,
{
    if round <= 1 {
        0
    } else {
        round_start(entrants, (round - 1) as nat) + round_len(entrants, (round - 1) as nat)
    }
}

/// The number of games of the whole bracket.
pub open spec fn game_count(entrants: nat) -> nat {
    round_start(entrants, round_count(entrants) + 1)
}

/// `id` names a game of the bracket for `entrants` participants.
pub open spec fn valid_id(entrants: nat, id: GameId) -> bool {
    &&& 1 <= id.round <= round_count(entrants)
    &&& 1 <= id.position <= round_len(entrants, id.round as nat)
}

/// Where the game `id` stands when the games are laid out round by round,
/// each round by position.
pub open spec fn slot_of(entrants: nat, id: GameId) -> int {
    round_start(entrants, id.round as nat) + id.position - 1
}

/// The game that the winner of `id` moves on to: in the following round, at
/// half the position, rounded up. The final has none.
pub open spec fn next_of(entrants: nat, id: GameId) -> Option<GameId> {
    if id.round < round_count(entrants) {
        Some(GameId { round: (id.round + 1) as u64, position: ((id.position + 1) / 2) as u64 })
    } else {
        None
    }
}

/// The first of the two games whose winners meet in `id`.
pub open spec fn upper_feeder(id: GameId) -> GameId {
    GameId { round: (id.round - 1) as u64, position: (2 * id.position - 1) as u64 }
}

/// The second of the two games whose winners meet in `id`. Where the round
/// before has an odd number of games, its last game has no such partner.
pub open spec fn lower_feeder(id: GameId) -> GameId {
    GameId { round: (id.round - 1) as u64, position: (2 * id.position) as u64 }
}

/// The game at `position` of a round of `games` games has no partner to be
/// paired with: it is the last of an odd number. This is the bye. Such a
/// game is linked to a game of the next round like any other; that game has
/// no second feeder and is won by a declaration of its lone participant.
pub open spec fn is_unpaired(position: nat, games: nat) -> bool {
    position == games && games % 2 == 1
}

/// Whether the game at `position` of a round of `games` games has no
/// partner.
pub fn unpaired(position: u64, games: u64) -> (alone: bool)
    ensures
        alone == is_unpaired(position as nat, games as nat),
{
    position == games && games % 2 == 1
}

/// The position, in the next round, of the game that the game at `position`
/// leads into.
pub fn next_position(position: u64) -> (next: u64)
    ensures
        next == (position + 1) / 2,
{
    position / 2 + position % 2
}

/// No round has more games than the first, nor more than there are
/// participants, and none is empty when there is a participant.
pub proof fn lemma_round_len_bounds(entrants: nat, round: nat)
    ensures
        round_len(entrants, round) <= half_up(entrants) <= entrants,
        entrants >= 1 ==> round_len(entrants, round) >= 1,
    decreases round,
{
    if round > 1 {
        lemma_round_len_bounds(entrants, (round - 1) as nat);
    }
}

/// There are at most as many rounds as the first of them has games.
pub proof fn lemma_rounds_after_bounds(games: nat)
    ensures
        1 <= rounds_after(games),
        games >= 1 ==> rounds_after(games) <= games,
    decreases games,
{
    if games > 1 {
        lemma_rounds_after_bounds(half_up(games));
    }
}

/// From any round on, the rounds that remain and the rounds that are past
/// add up to the round count.
pub proof fn lemma_rounds_remaining(entrants: nat, round: nat)
    requires
        1 <= round <= round_count(entrants),
    ensures
        round_count(entrants) + 1 == round + rounds_after(round_len(entrants, round)),
    decreases round,
{
    if round > 1 {
        lemma_rounds_remaining(entrants, (round - 1) as nat);
        lemma_rounds_after_bounds(half_up(round_len(entrants, (round - 1) as nat)));
    }
}

/// Only the last round holds a single game.
pub proof fn lemma_final_round(entrants: nat, round: nat)
    requires
        entrants >= 1,
        1 <= round <= round_count(entrants),
    ensures
        round == round_count(entrants) <==> round_len(entrants, round) == 1,
{
    lemma_rounds_remaining(entrants, round);
    lemma_round_len_bounds(entrants, round);
    lemma_rounds_after_bounds(half_up(round_len(entrants, round)));
}

/// Later rounds start further on.
pub proof fn lemma_round_start_monotone(entrants: nat, earlier: nat, later: nat)
    requires
        earlier <= later,
    ensures
        round_start(entrants, earlier) <= round_start(entrants, later),
    decreases later,
{
    if earlier < later && later > 1 {
        lemma_round_start_monotone(entrants, earlier, (later - 1) as nat);
    }
}

/// Two games of the layout that stand in the same place are the same game.
pub proof fn lemma_slot_injective(entrants: nat, a: GameId, b: GameId)
    requires
        a.round >= 1,
        b.round >= 1,
        1 <= a.position <= round_len(entrants, a.round as nat),
        1 <= b.position <= round_len(entrants, b.round as nat),
        slot_of(entrants, a) == slot_of(entrants, b),
    ensures
        a == b,
{
    if a.round < b.round {
        lemma_round_start_monotone(entrants, (a.round + 1) as nat, b.round as nat);
    } else if b.round < a.round {
        lemma_round_start_monotone(entrants, (b.round + 1) as nat, a.round as nat);
    }
}

/// Every game of the bracket has its place among the `game_count` places.
pub proof fn lemma_slot_in_range(entrants: nat, id: GameId)
    requires
        valid_id(entrants, id),
    ensures
        0 <= slot_of(entrants, id) < game_count(entrants),
{
    lemma_round_start_monotone(entrants, (id.round + 1) as nat, round_count(entrants) + 1);
}

/// The final is the single game of the last round and stands last.
pub proof fn lemma_final_slot(entrants: nat)
    requires
        entrants >= 1,
    ensures
        round_count(entrants) >= 1,
        round_len(entrants, round_count(entrants)) == 1,
        game_count(entrants) == round_start(entrants, round_count(entrants)) + 1,
{
    lemma_rounds_after_bounds(half_up(entrants));
    lemma_final_round(entrants, round_count(entrants));
}

/// The game after a game that is not the final is a game of the bracket,
/// and it is fed by that game: as its upper feeder from an odd position, as
/// its lower feeder from an even one.
pub proof fn lemma_next_is_fed(entrants: nat, id: GameId)
    requires
        entrants <= usize::MAX,
        valid_id(entrants, id),
        id.round < round_count(entrants),
    ensures
        next_of(entrants, id) is Some,
        valid_id(entrants, next_of(entrants, id)->0),
        id.position % 2 == 1 ==> upper_feeder(next_of(entrants, id)->0) == id,
        id.position % 2 == 0 ==> lower_feeder(next_of(entrants, id)->0) == id,
{
    lemma_round_len_bounds(entrants, id.round as nat);
    lemma_rounds_after_bounds(half_up(entrants));
    lemma_round_len_bounds(entrants, 1);
}

/// A game past round 1 is the next game of its upper feeder, which always
/// exists, and of its lower feeder where there is one; the lower feeder is
/// missing exactly where the round before ends on an unpaired game.
pub proof fn lemma_feeders(entrants: nat, id: GameId)
    requires
        entrants <= usize::MAX,
        valid_id(entrants, id),
        id.round >= 2,
    ensures
        valid_id(entrants, upper_feeder(id)),
        next_of(entrants, upper_feeder(id)) == Some(id),
        valid_id(entrants, lower_feeder(id)) <==> 2 * id.position <= round_len(
            entrants,
            (id.round - 1) as nat,
        ),
        valid_id(entrants, lower_feeder(id)) ==> next_of(entrants, lower_feeder(id)) == Some(id),
        upper_feeder(id) != lower_feeder(id),
{
    lemma_round_len_bounds(entrants, (id.round - 1) as nat);
}

/// No game other than its two feeders leads into a game.
pub proof fn lemma_only_feeders(entrants: nat, from: GameId, id: GameId)
    requires
        entrants <= usize::MAX,
        valid_id(entrants, from),
        next_of(entrants, from) == Some(id),
    ensures
        id.round >= 2,
        from == upper_feeder(id) || from == lower_feeder(id),
{
    lemma_next_is_fed(entrants, from);
}

} // verus!
