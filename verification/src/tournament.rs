//! A tournament run: the participants in the order in which they were
//! seated, their bracket, and the answers to the commands that drive it.

use vstd::prelude::*;
use vstd::string::StringExecFns;
use crate::bracket::Bracket;
use crate::command::{command_of, Command, CommandView};
use crate::error::BracketError;
use crate::game::GameId;
use crate::model::{initial, BracketView};
use crate::names::names_of;
use crate::notation::{id_of_text, id_text};
use crate::seating::arrange;

verus! {

/// A tournament run.
#[derive(Debug)]
pub struct Tournament {
    participants: Vec<String>,
    bracket: Bracket,
}

/// A tournament run, as mathematical values.
pub struct TournamentView {
    pub participants: Seq<Seq<char>>,
    pub bracket: BracketView,
}

impl View for Tournament {
    type V = TournamentView;

    closed spec fn view(&self) -> TournamentView {
        TournamentView { participants: names_of(self.participants@), bracket: self.bracket@ }
    }
}

/// The answer to a command.
#[derive(Debug)]
pub enum Reply {
    /// The tournament was stopped.
    Ended,
    /// `name` won a game and plays on in `next`.
    Advanced { name: String, next: GameId },
    /// `name` won the final.
    Won { name: String },
    /// The declaration was refused.
    Refused(BracketError),
    /// A declaration needs a game and a name.
    Usage,
    /// The text was no command.
    Ignored,
}

/// An answer, as mathematical values.
pub enum ReplyView {
    Ended,
    Advanced { name: Seq<char>, next: GameId },
    Won { name: Seq<char> },
    Refused(BracketError),
    Usage,
    Ignored,
}

impl View for Reply {
    type V = ReplyView;

    open spec fn view(&self) -> ReplyView {
        match self {
            Reply::Ended => ReplyView::Ended,
            Reply::Advanced { name, next } => ReplyView::Advanced { name: name@, next: *next },
            Reply::Won { name } => ReplyView::Won { name: name@ },
            Reply::Refused(e) => ReplyView::Refused(*e),
            Reply::Usage => ReplyView::Usage,
            Reply::Ignored => ReplyView::Ignored,
        }
    }
}

/// The answer that a declaration of `name` as the winner of the game
/// written `game` gets from `bracket`. A text that is not the text of an id
/// names no game.
pub open spec fn declaration_reply(bracket: BracketView, game: Seq<char>, name: Seq<char>) -> ReplyView {
    match id_of_text(game) {
        None => ReplyView::Refused(BracketError::UnknownGame),
        Some(id) => match bracket.declare_result(id, name) {
            Err(e) => ReplyView::Refused(e),
            Ok(Some(next)) => ReplyView::Advanced { name, next },
            Ok(None) => ReplyView::Won { name },
        },
    }
}

/// The answer that `command` gets from `bracket`.
pub open spec fn reply_to(bracket: BracketView, command: CommandView) -> ReplyView {
    match command {
        CommandView::Stop => ReplyView::Ended,
        CommandView::Declare { game, name } => declaration_reply(bracket, game, name),
        CommandView::Usage => ReplyView::Usage,
        CommandView::Other => ReplyView::Ignored,
    }
}

/// The bracket after `command`: only a declaration of a game that the
/// bracket has can change it.
pub open spec fn bracket_after(bracket: BracketView, command: CommandView) -> BracketView {
    match command {
        CommandView::Declare { game, name } => match id_of_text(game) {
            Some(id) => bracket.declare_state(id, name),
            None => bracket,
        },
        _ => bracket,
    }
}

impl ReplyView {
    /// After this answer no further command is taken: the tournament was
    /// stopped, or its final has been won.
    pub open spec fn ends(self) -> bool {
        self is Ended || self is Won
    }

    /// What is said in answer, if anything.
    pub open spec fn message(self) -> Option<Seq<char>> {
        match self {
            ReplyView::Ended => Some("Tournament has been ended."@),
            ReplyView::Advanced { name, next } => Some(name + "'s next game is "@ + id_text(next)),
            ReplyView::Won { name } => Some(name + " won the tournament!"@),
            ReplyView::Refused(e) => if e == BracketError::AlreadyDecided {
                Some("A winner for this game has already been declared."@)
            } else {
                Some("Please enter a valid game and team for this round."@)
            },
            ReplyView::Usage => Some("You should use the format `declare [round #]-[game #] [winner's name]`"@),
            ReplyView::Ignored => None,
        }
    }
}

impl Reply {
    /// After this answer no further command is taken.
    pub fn ends(&self) -> (ends: bool)
        ensures
            ends == self@.ends(),
    {
        match self {
            Reply::Ended => true,
            Reply::Won { .. } => true,
            _ => false,
        }
    }

    /// What is said in answer, if anything.
    pub fn message(&self) -> (message: Option<String>)
        ensures
            match message {
                Some(text) => self@.message() == Some(text@),
                None => self@.message() is None,
            },
    {
        match self {
            Reply::Ended => Some(String::from_str("Tournament has been ended.")),
            Reply::Advanced { name, next } => {
                let mut text = name.clone();
                text.append("'s next game is ");
                text.append(next.to_string().as_str());
                Some(text)
            },
            Reply::Won { name } => {
                let mut text = name.clone();
                text.append(" won the tournament!");
                Some(text)
            },
            Reply::Refused(e) => {
                match e {
                    BracketError::AlreadyDecided => Some(
                        String::from_str("A winner for this game has already been declared."),
                    ),
                    _ => Some(String::from_str("Please enter a valid game and team for this round.")),
                }
            },
            Reply::Usage => Some(
                String::from_str("You should use the format `declare [round #]-[game #] [winner's name]`"),
            ),
            Reply::Ignored => None,
        }
    }
}

impl Tournament {
    /// The bracket is sound and was drawn for the participants.
    pub closed spec fn wf(&self) -> bool {
        self.bracket.wf() && self.bracket@.entrants == self.participants@.len()
    }

    /// Seats the participants in the order given and draws their bracket.
    pub fn seat(participants: Vec<String>) -> (result: Result<Tournament, BracketError>)
        ensures
            participants@.len() == 0 <==> result is Err,
            result matches Err(e) ==> e == BracketError::NotEnoughParticipants,
            result matches Ok(run) ==> run.wf() && run@.participants == names_of(participants@)
                && run@.bracket == initial(names_of(participants@)),
    {
        match Bracket::new(&participants) {
            Err(e) => Err(e),
            Ok(bracket) => Ok(Tournament { participants, bracket }),
        }
    }

    /// Starts a run for `teams`: seated as given, or, if `random` is set, in
    /// a random order.
    pub fn start(teams: Vec<String>, random: bool) -> (result: Result<Tournament, BracketError>)
        ensures
            teams@.len() == 0 <==> result is Err,
            result matches Err(e) ==> e == BracketError::NotEnoughParticipants,
            result matches Ok(run) ==> {
                &&& run.wf()
                &&& run@.bracket == initial(run@.participants)
                &&& run@.participants.to_multiset() == names_of(teams@).to_multiset()
                &&& !random ==> run@.participants == names_of(teams@)
            },
    {
        Tournament::seat(arrange(teams, random))
    }

    /// The participants in the order in which they were seated.
    pub fn participants(&self) -> (participants: &Vec<String>)
        ensures
            names_of(participants@) == self@.participants,
    {
        &self.participants
    }

    /// The bracket.
    pub fn bracket(&self) -> (bracket: &Bracket)
        requires
            self.wf(),
        ensures
            bracket.wf(),
            bracket@ == self@.bracket,
    {
        &self.bracket
    }

    /// Declares `name` the winner of the game `id`, as the bracket does.
    pub fn declare(&mut self, id: GameId, name: String) -> (result: Result<Option<GameId>, BracketError>)
        requires
            old(self).wf(),
        ensures
            final(self).wf(),
            result == old(self)@.bracket.declare_result(id, name@),
            final(self)@.bracket == old(self)@.bracket.declare_state(id, name@),
            final(self)@.participants == old(self)@.participants,
    {
        proof {
            self.bracket.lemma_wf();
        }
        self.bracket.declare(id, name)
    }

    /// Takes one line of input and answers it. A declaration is put to the
    /// bracket; nothing else changes the run.
    pub fn respond(&mut self, text: &str) -> (reply: Reply)
        requires
            old(self).wf(),
        ensures
            final(self).wf(),
            reply@ == reply_to(old(self)@.bracket, command_of(text@)),
            final(self)@.bracket == bracket_after(old(self)@.bracket, command_of(text@)),
            final(self)@.participants == old(self)@.participants,
    {
        match Command::parse(text) {
            Command::Stop => Reply::Ended,
            Command::Usage => Reply::Usage,
            Command::Other => Reply::Ignored,
            Command::Declare { game, name } => {
                let id = match GameId::parse(game.as_str()) {
                    Some(id) => id,
                    None => {
                        return Reply::Refused(BracketError::UnknownGame);
                    },
                };
                let winner = name.clone();
                match self.declare(id, name) {
                    Err(e) => Reply::Refused(e),
                    Ok(Some(next)) => Reply::Advanced { name: winner, next },
                    Ok(None) => Reply::Won { name: winner },
                }
            },
        }
    }
}

} // verus!
