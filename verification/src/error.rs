//! The ways in which a request against a bracket can be turned down.

use vstd::prelude::*;
use vstd::string::StringExecFns;

verus! {

/// Why an operation on a game or a bracket was refused. Every refusal leaves
/// the state it was made against untouched.
#[derive(Clone, Copy, Debug, PartialEq, Eq, Structural)]
pub enum BracketError {
    /// Both slots of the game already hold a participant.
    SlotsFull,
    /// The declared name is empty or is in neither slot of the game.
    InvalidWinner,
    /// The game already has a winner.
    AlreadyDecided,
    /// No game of the bracket has the given id.
    UnknownGame,
    /// A bracket needs at least one participant.
    NotEnoughParticipants,
}

impl BracketError {
    /// The refusal in words.
    pub open spec fn text(self) -> Seq<char> {
        match self {
            BracketError::SlotsFull => "Teams already set."@,
            BracketError::InvalidWinner => "That team does not play in this game."@,
            BracketError::AlreadyDecided => "A winner for this game has already been declared."@,
            BracketError::UnknownGame => "There is no such game."@,
            BracketError::NotEnoughParticipants => "Not enough teams."@,
        }
    }

    /// The refusal in words.
    pub fn message(&self) -> (message: String)
        ensures
            message@ == self.text(),
    {
        match self {
            BracketError::SlotsFull => String::from_str("Teams already set."),
            BracketError::InvalidWinner => String::from_str("That team does not play in this game."),
            BracketError::AlreadyDecided => String::from_str(
                "A winner for this game has already been declared.",
            ),
            BracketError::UnknownGame => String::from_str("There is no such game."),
            BracketError::NotEnoughParticipants => String::from_str("Not enough teams."),
        }
    }
}

} // verus!
