//! The commands that drive a running tournament, as they are typed.

use vstd::prelude::*;
use vstd::string::{StrSliceExecFns, StringExecFns};
use crate::names::names_of;

verus! {

/// The pieces into which `mark` cuts a text: what stands before, between
/// and after its occurrences. Two marks in a row have an empty piece
/// between them, and a text without a mark is one piece.
pub open spec fn pieces_of(text: Seq<char>, mark: char) -> Seq<Seq<char>>
    decreases text.len(),
{
    if text.len() == 0 {
        seq![Seq::<char>::empty()]
    } else {
        let before = pieces_of(text.drop_last(), mark);
        if text.last() == mark {
            before.push(Seq::<char>::empty())
        } else {
            before.drop_last().push(before.last().push(text.last()))
        }
    }
}

/// The words of a text: the pieces between its blanks.
pub open spec fn words_of(text: Seq<char>) -> Seq<Seq<char>> {
    pieces_of(text, ' ')
}

/// A text always has a piece, even if an empty one.
pub proof fn lemma_pieces_nonempty(text: Seq<char>, mark: char)
    ensures
        pieces_of(text, mark).len() >= 1,
    decreases text.len(),
{
    if text.len() > 0 {
        lemma_pieces_nonempty(text.drop_last(), mark);
    }
}

/// Cuts a text at every `mark`.
pub fn split_at_mark(text: &str, mark: char) -> (pieces: Vec<String>)
    ensures
        names_of(pieces@) == pieces_of(text@, mark),
{
    let len = text.unicode_len();
    let mut pieces: Vec<String> = Vec::new();
    let mut start: usize = 0;
    let mut i: usize = 0;
    proof {
        assert(text@.subrange(0, 0) =~= Seq::<char>::empty());
        assert(names_of(pieces@).push(text@.subrange(0, 0)) =~= seq![Seq::<char>::empty()]);
    }
    while i < len
        invariant
            start <= i <= len,
            len == text@.len(),
            pieces_of(text@.subrange(0, i as int), mark) == names_of(pieces@).push(
                text@.subrange(start as int, i as int),
            ),
        decreases len - i,
    {
        let ghost seen = text@.subrange(0, i as int);
        let ghost longer = text@.subrange(0, i + 1);
        let ghost done = names_of(pieces@);
        let ghost open = text@.subrange(start as int, i as int);
        proof {
            assert(longer.drop_last() =~= seen);
            assert(longer.last() == text@[i as int]);
            assert(done.push(open).drop_last() =~= done);
        }
        if text.get_char(i) == mark {
            pieces.push(String::from_str(text.substring_char(start, i)));
            start = i + 1;
            proof {
                assert(names_of(pieces@) =~= done.push(open));
                assert(text@.subrange(start as int, i + 1) =~= Seq::<char>::empty());
            }
        } else {
            proof {
                assert(text@.subrange(start as int, i + 1) =~= open.push(text@[i as int]));
            }
        }
        i += 1;
    }
    let ghost done = names_of(pieces@);
    pieces.push(String::from_str(text.substring_char(start, len)));
    proof {
        assert(text@.subrange(0, len as int) =~= text@);
        assert(names_of(pieces@) =~= done.push(text@.subrange(start as int, len as int)));
    }
    pieces
}

/// Splits a text into its words.
pub fn split_words(text: &str) -> (words: Vec<String>)
    ensures
        names_of(words@) == words_of(text@),
{
    split_at_mark(text, ' ')
}

/// A command.
#[derive(Debug)]
pub enum Command {
    /// `stop`: ends the tournament.
    Stop,
    /// `declare <game> <name>`: declares `name` the winner of `game`.
    Declare { game: String, name: String },
    /// A `declare` with too few or too many words.
    Usage,
    /// Anything else.
    Other,
}

/// A command, as mathematical values.
pub enum CommandView {
    Stop,
    Declare { game: Seq<char>, name: Seq<char> },
    Usage,
    Other,
}

impl View for Command {
    type V = CommandView;

    open spec fn view(&self) -> CommandView {
        match self {
            Command::Stop => CommandView::Stop,
            Command::Declare { game, name } => CommandView::Declare { game: game@, name: name@ },
            Command::Usage => CommandView::Usage,
            Command::Other => CommandView::Other,
        }
    }
}

/// The command that a text stands for. `stop` is the text `stop` alone. A
/// text whose first word is `declare` is a declaration if it has exactly two
/// more words, the game and the name, with one blank before each; with any
/// other number of words it is misused.
pub open spec fn command_of(text: Seq<char>) -> CommandView {
    let words = words_of(text);
    if text == "stop"@ {
        CommandView::Stop
    } else if words[0] == "declare"@ {
        if words.len() == 3 {
            CommandView::Declare { game: words[1], name: words[2] }
        } else {
            CommandView::Usage
        }
    } else {
        CommandView::Other
    }
}

impl Command {
    /// Reads a command.
    pub fn parse(text: &str) -> (command: Command)
        ensures
            command@ == command_of(text@),
    {
        if String::from_str(text) == String::from_str("stop") {
            return Command::Stop;
        }
        let mut words = split_words(text);
        proof {
            lemma_pieces_nonempty(text@, ' ');
            assert(names_of(words@)[0] == words@[0]@);
        }
        if words[0] == String::from_str("declare") {
            if words.len() == 3 {
                proof {
                    assert(names_of(words@)[1] == words@[1]@);
                    assert(names_of(words@)[2] == words@[2]@);
                }
                let name = words.pop().unwrap();
                let game = words.pop().unwrap();
                Command::Declare { game, name }
            } else {
                Command::Usage
            }
        } else {
            Command::Other
        }
    }
}

} // verus!
