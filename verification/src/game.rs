//! A single match: two slots, a winner, and the game its winner moves on to.

use vstd::prelude::*;
use crate::error::BracketError;

verus! {

/// The key of a game: its round and its position within the round, both
/// counted from 1.
#[derive(Clone, Copy, Debug, PartialEq, Eq, Structural, Hash)]
pub struct GameId {
    pub round: u64,
    pub position: u64,
}

/// One match of a bracket. A slot or the winner is vacant while it holds the
/// empty string.
#[derive(Debug)]
pub struct Game {
    pub id: GameId,
    pub top_team: String,
    pub bottom_team: String,
    pub winner: String,
    pub next_game: Option<GameId>,
}

/// How far a game has come: nobody in it, one participant, both, or a
/// winner.
#[derive(Clone, Copy, Debug, PartialEq, Eq, Structural)]
pub enum Stage {
    Empty,
    Partial,
    Ready,
    Decided,
}

/// What a game holds, as mathematical values.
pub struct GameView {
    pub id: GameId,
    pub top: Seq<char>,
    pub bottom: Seq<char>,
    pub winner: Seq<char>,
    pub next: Option<GameId>,
}

impl GameView {
    /// Both slots hold a participant.
    pub open spec fn full(self) -> bool {
        self.top.len() > 0 && self.bottom.len() > 0
    }

    /// A winner has been recorded.
    pub open spec fn decided(self) -> bool {
        self.winner.len() > 0
    }

    /// The number of occupied slots.
    pub open spec fn filled(self) -> nat {
        (if self.top.len() > 0 { 1nat } else { 0nat }) + (if self.bottom.len() > 0 { 1nat } else { 0nat })
    }

    /// How far the game has come.
    pub open spec fn stage(self) -> Stage {
        if self.decided() {
            Stage::Decided
        } else if self.filled() == 2 {
            Stage::Ready
        } else if self.filled() == 1 {
            Stage::Partial
        } else {
            Stage::Empty
        }
    }

    /// The game after `name` has been put into its first vacant slot, top
    /// before bottom. A full game stays as it is.
    pub open spec fn with_team(self, name: Seq<char>) -> GameView {
        if self.top.len() == 0 {
            GameView { top: name, ..self }
        } else if self.bottom.len() == 0 {
            GameView { bottom: name, ..self }
        } else {
            self
        }
    }

    /// `name` may be declared the winner: it is a real name and sits in one
    /// of the two slots.
    pub open spec fn has_team(self, name: Seq<char>) -> bool {
        name.len() > 0 && (name == self.top || name == self.bottom)
    }

    /// The game after `name` has been recorded as its winner.
    pub open spec fn with_winner(self, name: Seq<char>) -> GameView {
        GameView { winner: name, ..self }
    }
}

impl View for Game {
    type V = GameView;

    open spec fn view(&self) -> GameView {
        GameView {
            id: self.id,
            top: self.top_team@,
            bottom: self.bottom_team@,
            winner: self.winner@,
            next: self.next_game,
        }
    }
}

impl Game {
    /// A game without a winner.
    pub fn new(id: GameId, top_team: String, bottom_team: String, next_game: Option<GameId>) -> (game: Game)
        ensures
            game@ == (GameView {
                id,
                top: top_team@,
                bottom: bottom_team@,
                winner: Seq::<char>::empty(),
                next: next_game,
            }),
    {
        Game { id, top_team, bottom_team, winner: String::new(), next_game }
    }

    /// Puts `name` into the first vacant slot, top before bottom.
    pub fn add_team(&mut self, name: String) -> (result: Result<(), BracketError>)
        ensures
            old(self)@.full() <==> result == Err::<(), BracketError>(BracketError::SlotsFull),
            !old(self)@.full() <==> result is Ok,
            final(self)@ == old(self)@.with_team(name@),
            result is Err ==> *final(self) == *old(self),
    {
        if self.top_team.as_str().is_empty() {
            self.top_team = name;
        } else if self.bottom_team.as_str().is_empty() {
            self.bottom_team = name;
        } else {
            return Err(BracketError::SlotsFull);
        }
        Ok(())
    }

    /// Replaces the game that the winner moves on to.
    pub fn set_next(&mut self, game: Option<GameId>)
        ensures
            final(self)@ == (GameView { next: game, ..old(self)@ }),
    {
        self.next_game = game;
    }

    /// Records `winner` as the winner of this game: one of its two teams,
    /// and only while it has none. The bracket that holds the game moves the
    /// winner on to the next game.
    pub fn winner(&mut self, winner: String) -> (result: Result<(), BracketError>)
        ensures
            result == Self::winner_result(old(self)@, winner@),
            result is Ok ==> final(self)@ == old(self)@.with_winner(winner@),
            result is Err ==> *final(self) == *old(self),
    {
        if !self.winner.as_str().is_empty() {
            return Err(BracketError::AlreadyDecided);
        }
        if winner.as_str().is_empty() || !(self.top_team == winner || self.bottom_team == winner) {
            return Err(BracketError::InvalidWinner);
        }
        self.winner = winner;
        Ok(())
    }

    /// How far the game has come.
    pub fn stage(&self) -> (stage: Stage)
        ensures
            stage == self@.stage(),
    {
        let top = !self.top_team.as_str().is_empty();
        let bottom = !self.bottom_team.as_str().is_empty();
        if !self.winner.as_str().is_empty() {
            Stage::Decided
        } else if top && bottom {
            Stage::Ready
        } else if top || bottom {
            Stage::Partial
        } else {
            Stage::Empty
        }
    }

    /// Whether a declaration of `name` against `game` is accepted, and if not,
    /// why. A decided game refuses every name.
    pub open spec fn winner_result(game: GameView, name: Seq<char>) -> Result<(), BracketError> {
        if game.decided() {
            Err(BracketError::AlreadyDecided)
        } else if !game.has_team(name) {
            Err(BracketError::InvalidWinner)
        } else {
            Ok(())
        }
    }
}

} // verus!
