//! Single-elimination tournaments for a chat bot: the games, the bracket
//! that links them, and the protocol by which declared winners advance;
//! beside them the dealing of people into teams and groups.
//!
//! A bracket is drawn from an ordered list of participants. Round 1 seats
//! them two to a game; every further round has one game for every two of
//! the round before, until a round holds a single game, the final. Where a
//! round has an odd number of games, the last of them is linked to a game
//! of its own in the next round. That game never sees a second
//! participant: its lone participant is moved on by an ordinary
//! declaration, as is a participant who sits alone in round 1. Nobody is
//! moved on without a declaration.
//!
//! - [`game`]: a single game and its rules.
//! - [`shape`]: the sizes of the rounds and the links between the games.
//! - [`model`]: the state of a bracket as mathematical values, and what a
//!   declaration does to it.
//! - [`bracket`]: the bracket, drawn and advanced.
//! - [`index`]: the insertion-ordered map that finds a game by its id.
//! - [`laws`]: what holds of every bracket.
//! - [`notation`]: decimal numbers and the text of a game id.
//! - [`command`], [`tournament`]: the commands of a running tournament and
//!   the answers to them.
//! - [`render`]: the bracket as text.
//! - [`seating`]: the order of the participants, as given or shuffled.
//! - [`options`], [`teams`]: what follows a command, and the dealing of
//!   people into teams.

pub mod bracket;
pub mod command;
pub mod error;
pub mod game;
pub mod index;
pub mod laws;
pub mod model;
pub mod names;
pub mod notation;
pub mod options;
pub mod render;
pub mod seating;
pub mod shape;
pub mod teams;
pub mod tournament;
