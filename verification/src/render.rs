//! The bracket as rows of text, for whoever shows it.

use vstd::prelude::*;
use vstd::string::StringExecFns;
use crate::game::{Game, GameView};
use crate::notation::{decimal, decimal_string};

verus! {

/// One game as it is shown: where it stands and who is in it.
#[derive(Debug)]
pub struct Row {
    pub round: u64,
    pub position: u64,
    pub top: String,
    pub bottom: String,
}

/// What a row holds, as mathematical values.
pub struct RowView {
    pub round: u64,
    pub position: u64,
    pub top: Seq<char>,
    pub bottom: Seq<char>,
}

impl View for Row {
    type V = RowView;

    open spec fn view(&self) -> RowView {
        RowView { round: self.round, position: self.position, top: self.top@, bottom: self.bottom@ }
    }
}

/// The row that shows `game`.
pub open spec fn row_of(game: GameView) -> RowView {
    RowView { round: game.id.round, position: game.id.position, top: game.top, bottom: game.bottom }
}

/// The text of one row: a heading with round and position, then one line
/// for each slot.
pub open spec fn row_text(row: RowView) -> Seq<char> {
    "\nRound "@ + decimal(row.round as nat) + " Game "@ + decimal(row.position as nat) + ":\n\t"@
        + row.top + "\n\t"@ + row.bottom + "\n"@
}

/// The text of the first `count` of `rows`, one after the other.
pub open spec fn rows_text(rows: Seq<Row>, count: nat) -> Seq<char>
    decreases count,
{
    if count == 0 {
        Seq::<char>::empty()
    } else {
        rows_text(rows, (count - 1) as nat) + row_text(rows[count - 1]@)
    }
}

impl Row {
    /// The row that shows `game`.
    pub fn of(game: &Game) -> (row: Row)
        ensures
            row@ == row_of(game@),
    {
        Row {
            round: game.id.round,
            position: game.id.position,
            top: game.top_team.clone(),
            bottom: game.bottom_team.clone(),
        }
    }

    /// The row as text.
    pub fn text(&self) -> (text: String)
        ensures
            text@ == row_text(self@),
    {
        let mut text = String::from_str("\nRound ");
        text.append(decimal_string(self.round).as_str());
        text.append(" Game ");
        text.append(decimal_string(self.position).as_str());
        text.append(":\n\t");
        text.append(self.top.as_str());
        text.append("\n\t");
        text.append(self.bottom.as_str());
        text.append("\n");
        text
    }
}

/// The rows as one text, in the order given.
pub fn render(rows: &Vec<Row>) -> (text: String)
    ensures
        text@ == rows_text(rows@, rows@.len()),
{
    let mut text = String::new();
    let mut i: usize = 0;
    while i < rows.len()
        invariant
            i <= rows@.len(),
            text@ == rows_text(rows@, i as nat),
        decreases rows@.len() - i,
    {
        text.append(rows[i].text().as_str());
        i += 1;
    }
    text
}

} // verus!
