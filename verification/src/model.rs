//! The state of a bracket as mathematical values, and what a declaration
//! does to it.

use vstd::prelude::*;
use crate::error::BracketError;
use crate::game::{Game, GameId, GameView};
use crate::shape::{
    lemma_feeders, lemma_next_is_fed, lower_feeder, next_of, upper_feeder, valid_id,
};

verus! {

/// A bracket: the number of participants it was drawn for, and its games
/// by id.
pub struct BracketView {
    pub entrants: nat,
    pub games: Map<GameId, GameView>,
}

/// The game `id` with nobody in it and no link to a later round.
pub open spec fn vacant(id: GameId) -> GameView {
    GameView {
        id,
        top: Seq::<char>::empty(),
        bottom: Seq::<char>::empty(),
        winner: Seq::<char>::empty(),
        next: None,
    }
}

/// A game of round 1 after the first `placed` of `names` have taken their
/// slots, two to a game, and before it has been linked to a later round.
pub open spec fn paired(names: Seq<Seq<char>>, placed: nat, id: GameId) -> GameView {
    let first = 2 * (id.position - 1);
    let one = if first < placed {
        vacant(id).with_team(names[first])
    } else {
        vacant(id)
    };
    if first + 1 < placed {
        one.with_team(names[first + 1])
    } else {
        one
    }
}

/// The game `id` of a freshly drawn bracket: games of round 1 hold the
/// participants in the order given, two to a game, all later games are
/// vacant, no game is decided, and every game but the final is linked to
/// the game after it.
pub open spec fn seeded(names: Seq<Seq<char>>, id: GameId) -> GameView {
    let slots = if id.round == 1 {
        paired(names, names.len(), id)
    } else {
        vacant(id)
    };
    GameView { next: next_of(names.len(), id), ..slots }
}

/// The bracket drawn for `names`.
pub open spec fn initial(names: Seq<Seq<char>>) -> BracketView {
    BracketView {
        entrants: names.len(),
        games: Map::new(|id: GameId| valid_id(names.len(), id), |id: GameId| seeded(names, id)),
    }
}

impl BracketView {
    /// `id` is a game of this bracket.
    pub open spec fn has(self, id: GameId) -> bool {
        self.games.dom().contains(id)
    }

    /// 1 if `id` is a game of this bracket with a winner, else 0.
    pub open spec fn decided_at(self, id: GameId) -> nat {
        if self.has(id) && self.games[id].decided() {
            1
        } else {
            0
        }
    }

    /// The games are those of the shape for `entrants` participants, each
    /// stored under its own id and linked to the game after it.
    pub open spec fn structured(self) -> bool {
        &&& 1 <= self.entrants <= usize::MAX
        &&& forall|id: GameId| #[trigger] self.has(id) <==> valid_id(self.entrants, id)
        &&& forall|id: GameId| #[trigger]
            self.has(id) ==> self.games[id].id == id && self.games[id].next == next_of(
                self.entrants,
                id,
            )
    }

    /// A recorded winner sits in a slot of its game, and past round 1 a
    /// game holds exactly as many participants as it has decided feeders.
    pub open spec fn consistent(self) -> bool {
        &&& forall|id: GameId| #[trigger]
            self.has(id) && self.games[id].decided() ==> self.games[id].has_team(
                self.games[id].winner,
            )
        &&& forall|id: GameId| self.has(id) && id.round >= 2 ==> #[trigger] self.balanced_at(id)
    }

    /// The game `id` holds as many participants as it has decided feeders.
    pub open spec fn balanced_at(self, id: GameId) -> bool {
        self.games[id].filled() == self.decided_at(upper_feeder(id)) + self.decided_at(
            lower_feeder(id),
        )
    }

    /// The invariant of every bracket that was drawn and then advanced by
    /// declarations.
    pub open spec fn well_formed(self) -> bool {
        self.structured() && self.consistent()
    }

    /// How a declaration of `name` as the winner of `id` is answered: with
    /// the game the winner moves on to (none after the final), or with the
    /// reason for which it is refused.
    pub open spec fn declare_result(self, id: GameId, name: Seq<char>) -> Result<
        Option<GameId>,
        BracketError,
    > {
        if !self.has(id) {
            Err(BracketError::UnknownGame)
        } else {
            match Game::winner_result(self.games[id], name) {
                Err(e) => Err(e),
                Ok(_) => Ok(self.games[id].next),
            }
        }
    }

    /// An accepted declaration finds a vacant slot in the next game.
    pub proof fn lemma_next_has_room(self, id: GameId, name: Seq<char>)
        requires
            self.well_formed(),
            self.declare_result(id, name) is Ok,
            self.games[id].next is Some,
        ensures
            self.has(self.games[id].next->0),
            !self.games[self.games[id].next->0].full(),
    {
        let next = self.games[id].next->0;
        lemma_next_is_fed(self.entrants, id);
        lemma_feeders(self.entrants, next);
        assert(self.has(next));
        assert(self.balanced_at(next));
        assert(self.decided_at(id) == 0);
    }

    /// A declaration leaves the games, their ids and their links as they are.
    proof fn lemma_declare_structured(self, id: GameId, name: Seq<char>)
        requires
            self.well_formed(),
            self.declare_result(id, name) is Ok,
        ensures
            self.declare_state(id, name).structured(),
            self.declare_state(id, name).games.dom() == self.games.dom(),
    {
        let after = self.declare_state(id, name);
        if self.games[id].next is Some {
            self.lemma_next_has_room(id, name);
        }
        assert(after.games.dom() =~= self.games.dom());
        assert forall|g: GameId| #[trigger] after.has(g) implies after.games[g].id == g
            && after.games[g].next == next_of(after.entrants, g) by {
            assert(self.has(g));
        }
        assert forall|g: GameId| #[trigger] after.has(g) <==> valid_id(after.entrants, g) by {
            assert(after.has(g) == self.has(g));
        }
    }

    /// After a declaration every recorded winner still sits in its game.
    proof fn lemma_declare_winners(self, id: GameId, name: Seq<char>)
        requires
            self.well_formed(),
            self.declare_result(id, name) is Ok,
        ensures
            forall|g: GameId| #[trigger]
                self.declare_state(id, name).has(g) && self.declare_state(id, name).games[g].decided()
                    ==> self.declare_state(id, name).games[g].has_team(
                    self.declare_state(id, name).games[g].winner,
                ),
    {
        let after = self.declare_state(id, name);
        self.lemma_declare_structured(id, name);
        assert forall|g: GameId| #[trigger] after.has(g) && after.games[g].decided() implies after.games[g].has_team(
            after.games[g].winner,
        ) by {
            assert(self.has(g));
            if g != id {
                assert(self.games[g].decided());
            }
        }
    }

    /// After a declaration every game past round 1 still holds as many
    /// participants as it has decided feeders.
    proof fn lemma_declare_counts(self, id: GameId, name: Seq<char>, g: GameId)
        requires
            self.well_formed(),
            self.declare_result(id, name) is Ok,
            self.has(g),
            g.round >= 2,
        ensures
            self.declare_state(id, name).balanced_at(g),
    {
        assert(self.balanced_at(g));
        let after = self.declare_state(id, name);
        let upper = upper_feeder(g);
        let lower = lower_feeder(g);
        self.lemma_declare_structured(id, name);
        lemma_feeders(self.entrants, g);
        assert(self.has(upper));
        assert(self.has(lower) == valid_id(self.entrants, lower));
        assert(after.has(upper) == self.has(upper));
        assert(after.has(lower) == self.has(lower));
        assert(self.decided_at(id) == 0);
        assert(after.games[id] == self.games[id].with_winner(name)) by {
            if self.games[id].next is Some {
                lemma_next_is_fed(self.entrants, id);
            }
        }
        assert(after.decided_at(id) == 1);
        match self.games[id].next {
            Some(next) => {
                self.lemma_next_has_room(id, name);
                lemma_next_is_fed(self.entrants, id);
                if g == next {
                    assert(upper == id || lower == id);
                    assert(after.games[g] == self.games[g].with_team(name));
                    assert(after.games[g].filled() == self.games[g].filled() + 1);
                    if upper == id {
                        assert(after.decided_at(lower) == self.decided_at(lower));
                    } else {
                        assert(after.decided_at(upper) == self.decided_at(upper));
                    }
                } else {
                    assert(upper != id && lower != id) by {
                        if upper == id || lower == id {
                            assert(next_of(self.entrants, id) == Some(g));
                        }
                    }
                    assert(after.games[g].filled() == self.games[g].filled());
                    assert(after.decided_at(upper) == self.decided_at(upper));
                    assert(after.decided_at(lower) == self.decided_at(lower));
                }
            },
            None => {
                assert(upper != id && lower != id) by {
                    if upper == id || lower == id {
                        assert(next_of(self.entrants, id) == Some(g));
                    }
                }
                assert(after.games[g].filled() == self.games[g].filled());
                assert(after.decided_at(upper) == self.decided_at(upper));
                assert(after.decided_at(lower) == self.decided_at(lower));
            },
        }
    }

    /// A declaration keeps a well-formed bracket well formed.
    pub proof fn lemma_declare_preserves(self, id: GameId, name: Seq<char>)
        requires
            self.well_formed(),
        ensures
            self.declare_state(id, name).well_formed(),
    {
        if self.declare_result(id, name) is Ok {
            let after = self.declare_state(id, name);
            self.lemma_declare_structured(id, name);
            self.lemma_declare_winners(id, name);
            assert forall|g: GameId| after.has(g) && g.round >= 2 implies #[trigger] after.balanced_at(g) by {
                self.lemma_declare_counts(id, name, g);
            }
        }
    }

    /// The bracket after a declaration of `name` as the winner of `id`. An
    /// accepted declaration records the winner and puts the name into the
    /// first vacant slot of the next game; a refused one changes nothing.
    pub open spec fn declare_state(self, id: GameId, name: Seq<char>) -> BracketView {
        if self.declare_result(id, name) is Ok {
            let decided = self.games.insert(id, self.games[id].with_winner(name));
            match self.games[id].next {
                Some(next) => BracketView {
                    games: decided.insert(next, self.games[next].with_team(name)),
                    ..self
                },
                None => BracketView { games: decided, ..self },
            }
        } else {
            self
        }
    }
}

} // verus!
