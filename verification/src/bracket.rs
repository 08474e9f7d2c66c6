//! The bracket itself: the games of every round, stored round by round, and
//! the index that finds a game by its id.

use vstd::prelude::*;
use linked_hash_map::LinkedHashMap;
use crate::error::BracketError;
use crate::game::{Game, GameId, GameView};
use crate::index::{index_entries, index_get, index_insert, index_keys, index_len, index_new};
use crate::model::{initial, paired, seeded, vacant, BracketView};
use crate::names::names_of;
use crate::render::{row_of, Row};
use crate::shape::{
    game_count, half_up, lemma_final_round, lemma_final_slot, lemma_round_len_bounds,
    lemma_round_start_monotone, lemma_rounds_after_bounds, lemma_slot_in_range,
    lemma_slot_injective,
    next_of, next_position, round_count, round_len, round_start, rounds_after, slot_of, valid_id,
};

verus! {

/// A single-elimination bracket. Its games are stored round by round, each
/// round by position, and are found by id through the index. A game names
/// the game after it by id, so that no game is shared. Whoever declares a
/// winner holds the bracket exclusively: of two declarations on one game
/// the second finds the game decided.
#[derive(Debug)]
pub struct Bracket {
    games: Vec<Game>,
    index: LinkedHashMap<(u64, u64), usize>,
    entrants: usize,
}

/// The key under which the index holds a game.
pub open spec fn key_of(id: GameId) -> (u64, u64) {
    (id.round, id.position)
}

/// `id` has a place in the layout for `entrants` participants, in whatever
/// round.
spec fn in_layout(entrants: nat, id: GameId) -> bool {
    id.round >= 1 && 1 <= id.position <= round_len(entrants, id.round as nat)
}

/// Every stored game stands at the place of its id, and every id whose place
/// is taken is the id of the game that stands there.
spec fn laid_out(games: Seq<Game>, entrants: nat) -> bool {
    &&& forall|i: int|
        0 <= i < games.len() ==> in_layout(entrants, (#[trigger] games[i]).id) && slot_of(
            entrants,
            games[i].id,
        ) == i
    &&& forall|id: GameId|
        in_layout(entrants, id) && 0 <= #[trigger] slot_of(entrants, id) < games.len()
            ==> games[slot_of(entrants, id)].id == id
}

/// The index lists the games in the order in which they are stored, each
/// under its key and with its place.
spec fn indexed(games: Seq<Game>, entries: Seq<((u64, u64), usize)>) -> bool {
    &&& entries.len() == games.len()
    &&& forall|i: int|
        0 <= i < games.len() ==> (#[trigger] entries[i]).0 == key_of(games[i].id) && entries[i].1 == i
}

/// The game that the winner of `id` moves on to, if `id` is not the final.
spec fn link_of(id: GameId) -> GameId {
    GameId { round: (id.round + 1) as u64, position: ((id.position + 1) / 2) as u64 }
}

/// While a bracket is drawn: every stored game holds what the finished
/// bracket holds, except that only the first `linked` games have their link.
spec fn drawn(games: Seq<Game>, names: Seq<Seq<char>>, linked: int) -> bool {
    forall|j: int|
        0 <= j < games.len() ==> (#[trigger] games[j])@ == (GameView {
            next: if j < linked {
                Some(link_of(games[j].id))
            } else {
                None
            },
            ..seeded(names, games[j].id)
        })
}

/// A game that is appended at the place of its id keeps the layout.
proof fn lemma_push_laid_out(games: Seq<Game>, entrants: nat, game: Game)
    requires
        laid_out(games, entrants),
        in_layout(entrants, game.id),
        slot_of(entrants, game.id) == games.len(),
    ensures
        laid_out(games.push(game), entrants),
{
    let after = games.push(game);
    assert forall|id: GameId|
        in_layout(entrants, id) && 0 <= #[trigger] slot_of(entrants, id) < after.len() implies after[slot_of(
        entrants,
        id,
    )].id == id by {
        if slot_of(entrants, id) == games.len() {
            lemma_slot_injective(entrants, id, game.id);
        }
    }
}

/// A game whose place is still free is not in the index yet, so that its
/// insertion appends an entry.
proof fn lemma_fresh_key(games: Seq<Game>, entries: Seq<((u64, u64), usize)>, entrants: nat, id: GameId)
    requires
        laid_out(games, entrants),
        indexed(games, entries),
        slot_of(entrants, id) == games.len(),
    ensures
        forall|i: int| 0 <= i < entries.len() ==> (#[trigger] entries[i]).0 != key_of(id),
{
    assert forall|i: int| 0 <= i < entries.len() implies (#[trigger] entries[i]).0 != key_of(id) by {
        assert(slot_of(entrants, games[i].id) == i);
    }
}

/// Appends the game `id`, vacant and unlinked, and enters it in the index.
fn open_game(
    games: &mut Vec<Game>,
    index: &mut LinkedHashMap<(u64, u64), usize>,
    id: GameId,
    Ghost(entrants): Ghost<nat>,
)
    requires
        laid_out(old(games)@, entrants),
        indexed(old(games)@, index_entries(*old(index))),
        in_layout(entrants, id),
        slot_of(entrants, id) == old(games)@.len(),
    ensures
        final(games)@.len() == old(games)@.len() + 1,
        final(games)@ == old(games)@.push(final(games)@.last()),
        final(games)@.last()@ == vacant(id),
        laid_out(final(games)@, entrants),
        indexed(final(games)@, index_entries(*final(index))),
{
    let slot = games.len();
    let game = Game::new(id, String::new(), String::new(), None);
    proof {
        lemma_push_laid_out(games@, entrants, game);
        lemma_fresh_key(games@, index_entries(*index), entrants, id);
    }
    games.push(game);
    let former = index_insert(index, (id.round, id.position), slot);
    proof {
        assert(former is None) by {
            if former is Some {
                let entries = index_entries(*old(index));
                let i = choose|i: int| 0 <= i < entries.len() && #[trigger] entries[i] == (key_of(id), former->0);
                assert(entries[i].0 == key_of(id));
            }
        }
    }
}

/// Links every game of round `round_num`, which is the last round that has
/// been laid out and starts at `start`, to a game of a new round, one new
/// game for every two, and goes on with the new round until a round of a
/// single game, the final, has been reached.
fn fill_tournament(
    games: &mut Vec<Game>,
    index: &mut LinkedHashMap<(u64, u64), usize>,
    start: usize,
    round_num: u64,
    Ghost(names): Ghost<Seq<Seq<char>>>,
)
    requires
        1 <= names.len() <= usize::MAX,
        round_num >= 1,
        start == round_start(names.len(), round_num as nat),
        old(games)@.len() == start + round_len(names.len(), round_num as nat),
        round_count(names.len()) + 1 == round_num + rounds_after(round_len(names.len(), round_num as nat)),
        laid_out(old(games)@, names.len()),
        indexed(old(games)@, index_entries(*old(index))),
        drawn(old(games)@, names, start as int),
    ensures
        final(games)@.len() == game_count(names.len()),
        laid_out(final(games)@, names.len()),
        indexed(final(games)@, index_entries(*final(index))),
        drawn(final(games)@, names, game_count(names.len()) - 1),
    decreases round_len(names.len(), round_num as nat),
{
    let ghost n = names.len();
    let len = games.len() - start;
    proof {
        lemma_rounds_after_bounds(half_up(n));
        lemma_rounds_after_bounds(half_up(len as nat));
        lemma_round_len_bounds(n, round_num as nat);
    }
    if len > 1 {
        let next_round: u64 = round_num + 1;
        let next_start = games.len();
        let mut i: usize = 0;
        while i < len
            invariant
                1 <= n <= usize::MAX,
                n == names.len(),
                round_num >= 1,
                next_round == round_num + 1,
                i <= len,
                len == round_len(n, round_num as nat),
                start == round_start(n, round_num as nat),
                next_start == start + len,
                games@.len() == next_start + half_up(i as nat),
                laid_out(games@, n),
                indexed(games@, index_entries(*index)),
                drawn(games@, names, start + i),
            decreases len - i,
        {
            let next_id = GameId { round: next_round, position: next_position((i + 1) as u64) };
            if i % 2 == 0 {
                open_game(games, index, next_id, Ghost(n));
            }
            let ghost before = games@;
            let ghost feeder = GameId { round: round_num, position: (i + 1) as u64 };
            assert(slot_of(n, feeder) == start + i);
            assert(before[start + i].id == feeder);
            games[start + i].set_next(Some(next_id));
            assert(link_of(feeder) == next_id);
            i += 1;
        }
        fill_tournament(games, index, next_start, next_round, Ghost(names));
    }
}

impl Bracket {
    /// Draws the bracket for `participants`, in the order given: two to a
    /// game in round 1, then one game for every two of each round, until a
    /// round holds a single game. Nobody is advanced by the draw.
    pub fn new(participants: &Vec<String>) -> (result: Result<Bracket, BracketError>)
        ensures
            participants@.len() == 0 <==> result is Err,
            result matches Err(e) ==> e == BracketError::NotEnoughParticipants,
            result matches Ok(bracket) ==> bracket.wf() && bracket@ == initial(names_of(participants@)),
    {
        let n = participants.len();
        if n == 0 {
            return Err(BracketError::NotEnoughParticipants);
        }
        let ghost names = names_of(participants@);
        let mut games: Vec<Game> = Vec::new();
        let mut index = index_new();
        let mut i: usize = 0;
        while i < n
            invariant
                i <= n,
                n == participants@.len(),
                names == names_of(participants@),
                games@.len() == half_up(i as nat),
                laid_out(games@, n as nat),
                indexed(games@, index_entries(index)),
                forall|j: int|
                    0 <= j < games@.len() ==> (#[trigger] games@[j])@ == paired(
                        names,
                        i as nat,
                        GameId { round: 1, position: (j + 1) as u64 },
                    ),
            decreases n - i,
        {
            if i % 2 == 0 {
                let id = GameId { round: 1, position: (i / 2 + 1) as u64 };
                open_game(&mut games, &mut index, id, Ghost(n as nat));
            }
            let added = games[i / 2].add_team(participants[i].clone());
            assert(added is Ok);
            i += 1;
        }
        proof {
            lemma_rounds_after_bounds(half_up(n as nat));
            assert(drawn(games@, names, 0));
        }
        fill_tournament(&mut games, &mut index, 0, 1, Ghost(names));
        let bracket = Bracket { games, index, entrants: n };
        proof {
            lemma_drawn_is_initial(bracket, names);
        }
        Ok(bracket)
    }

    /// The number of participants the bracket was drawn for.
    pub closed spec fn entrants(&self) -> nat {
        self.entrants as nat
    }

    /// The representation is sound: the games are laid out round by round,
    /// the index finds each of them, and the state they describe is well
    /// formed.
    pub closed spec fn wf(&self) -> bool {
        &&& self.entrants >= 1
        &&& self.games@.len() == game_count(self.entrants as nat)
        &&& laid_out(self.games@, self.entrants as nat)
        &&& indexed(self.games@, index_entries(self.index))
        &&& forall|i: int|
            0 <= i < self.games@.len() ==> valid_id(self.entrants as nat, (#[trigger] self.games@[i]).id)
                && self.games@[i].next_game == next_of(self.entrants as nat, self.games@[i].id)
        &&& self@.consistent()
    }

    /// A well-formed bracket describes a well-formed state.
    pub proof fn lemma_wf(&self)
        requires
            self.wf(),
        ensures
            self@.well_formed(),
            self@.entrants == self.entrants(),
    {
        let n = self.entrants as nat;
        assert forall|id: GameId| #[trigger] self@.has(id) implies self@.games[id].id == id
            && self@.games[id].next == next_of(n, id) by {
            lemma_slot_in_range(n, id);
            assert(self.games@[slot_of(n, id)].id == id);
        }
    }
}

impl Bracket {
    /// The place of the game `id`, through the index.
    fn find(&self, id: GameId) -> (slot: Option<usize>)
        requires
            self.wf(),
        ensures
            match slot {
                Some(s) => self@.has(id) && s == slot_of(self.entrants(), id) && s < self.games@.len(),
                None => !self@.has(id),
            },
    {
        let slot = index_get(&self.index, (id.round, id.position));
        proof {
            let n = self.entrants as nat;
            let entries = index_entries(self.index);
            match slot {
                Some(s) => {
                    let i = choose|i: int| 0 <= i < entries.len() && entries[i] == (key_of(id), s);
                    assert(entries[i].0 == key_of(self.games@[i].id) && entries[i].1 == i);
                    assert(self.games@[i].id == id);
                },
                None => {
                    if valid_id(n, id) {
                        lemma_slot_in_range(n, id);
                        let k = slot_of(n, id);
                        assert(entries[k].0 == key_of(self.games@[k].id));
                    }
                },
            }
        }
        slot
    }

    /// The number of games.
    pub fn len(&self) -> (count: usize)
        requires
            self.wf(),
        ensures
            count == game_count(self.entrants()),
    {
        index_len(&self.index)
    }

    /// The number of rounds.
    pub fn rounds(&self) -> (count: u64)
        requires
            self.wf(),
        ensures
            count == round_count(self.entrants()),
    {
        proof {
            let n = self.entrants as nat;
            lemma_final_slot(n);
            let last = GameId { round: round_count(n) as u64, position: 1 };
            lemma_rounds_after_bounds(half_up(n));
            assert(slot_of(n, last) == self.games@.len() - 1);
        }
        self.games[self.games.len() - 1].id.round
    }

    /// The number of games in round `round`; 0 if the bracket has no such
    /// round.
    pub fn round_len(&self, round: u64) -> (count: u64)
        requires
            self.wf(),
        ensures
            count == (if 1 <= round <= round_count(self.entrants()) {
                round_len(self.entrants(), round as nat)
            } else {
                0
            }),
    {
        if round < 1 || round > self.rounds() {
            return 0;
        }
        let mut count: usize = self.entrants / 2 + self.entrants % 2;
        let mut at: u64 = 1;
        while at < round
            invariant
                1 <= at <= round,
                count == round_len(self.entrants as nat, at as nat),
            decreases round - at,
        {
            count = count / 2 + count % 2;
            at += 1;
        }
        count as u64
    }

    /// The game with the given id, if the bracket has one.
    pub fn lookup(&self, id: GameId) -> (game: Option<&Game>)
        requires
            self.wf(),
        ensures
            match game {
                Some(g) => self@.has(id) && g@ == self@.games[id],
                None => !self@.has(id),
            },
    {
        match self.find(id) {
            Some(slot) => Some(&self.games[slot]),
            None => None,
        }
    }

    /// The games as rows, round by round and each round by position.
    pub fn rows(&self) -> (rows: Vec<Row>)
        requires
            self.wf(),
        ensures
            rows@.len() == game_count(self.entrants()),
            forall|id: GameId| #[trigger]
                self@.has(id) ==> 0 <= slot_of(self.entrants(), id) < rows@.len() && rows@[slot_of(
                    self.entrants(),
                    id,
                )]@ == row_of(self@.games[id]),
            forall|i: int|
                0 <= i < rows@.len() ==> {
                    let id = GameId { round: (#[trigger] rows@[i]).round, position: rows@[i].position };
                    self@.has(id) && slot_of(self.entrants(), id) == i
                },
    {
        let ghost n = self.entrants as nat;
        let keys = index_keys(&self.index);
        let mut rows: Vec<Row> = Vec::new();
        let mut i: usize = 0;
        while i < keys.len()
            invariant
                self.wf(),
                n == self.entrants,
                i <= keys@.len(),
                keys@.len() == self.games@.len(),
                forall|j: int| 0 <= j < keys@.len() ==> #[trigger] keys@[j] == index_entries(self.index)[j].0,
                rows@.len() == i,
                forall|j: int| 0 <= j < i ==> (#[trigger] rows@[j])@ == row_of(self.games@[j]@),
            decreases keys@.len() - i,
        {
            let id = GameId { round: keys[i].0, position: keys[i].1 };
            assert(id == self.games@[i as int].id) by {
                assert(index_entries(self.index)[i as int].0 == key_of(self.games@[i as int].id));
            }
            match self.lookup(id) {
                Some(game) => {
                    rows.push(Row::of(game));
                },
                None => {},
            }
            i += 1;
        }
        proof {
            assert forall|id: GameId| #[trigger] self@.has(id) implies 0 <= slot_of(n, id) < rows@.len()
                && rows@[slot_of(n, id)]@ == row_of(self@.games[id]) by {
                lemma_slot_in_range(n, id);
            }
        }
        rows
    }

    /// The winner of the final, once it has been declared.
    pub fn champion(&self) -> (name: Option<String>)
        requires
            self.wf(),
        ensures
            match name {
                Some(name) => name@.len() > 0 && name@ == self@.games[self.final_id()].winner,
                None => !self@.games[self.final_id()].decided(),
            },
            self@.has(self.final_id()),
    {
        proof {
            let n = self.entrants as nat;
            lemma_final_slot(n);
            lemma_rounds_after_bounds(half_up(n));
            assert(slot_of(n, self.final_id()) == self.games@.len() - 1);
        }
        let last = &self.games[self.games.len() - 1];
        if last.winner.as_str().is_empty() {
            None
        } else {
            Some(last.winner.clone())
        }
    }

    /// The id of the final: the single game of the last round.
    pub open spec fn final_id(&self) -> GameId {
        GameId { round: round_count(self.entrants()) as u64, position: 1 }
    }

    /// Declares `name` the winner of the game `id`. An accepted declaration
    /// records the winner, puts the name into the first vacant slot of the
    /// next game, and answers with the id of that game, or with `None` when
    /// the game was the final. A refused one changes nothing. The next game
    /// always has room: each of its feeders is decided once, and each
    /// decision fills one slot.
    pub fn declare(&mut self, id: GameId, name: String) -> (result: Result<Option<GameId>, BracketError>)
        requires
            old(self).wf(),
        ensures
            final(self).wf(),
            result == old(self)@.declare_result(id, name@),
            final(self)@ == old(self)@.declare_state(id, name@),
    {
        let ghost before = self@;
        let ghost n = self.entrants as nat;
        proof {
            self.lemma_wf();
        }
        let slot = match self.find(id) {
            Some(slot) => slot,
            None => {
                return Err(BracketError::UnknownGame);
            },
        };
        let next = self.games[slot].next_game;
        let next_slot = match next {
            Some(next_id) => {
                proof {
                    if before.declare_result(id, name@) is Ok {
                        before.lemma_next_has_room(id, name@);
                    }
                    crate::shape::lemma_next_is_fed(n, id);
                }
                self.find(next_id)
            },
            None => None,
        };
        let advancing = name.clone();
        match self.games[slot].winner(name) {
            Err(e) => {
                assert(self.games@ =~= old(self).games@);
                return Err(e);
            },
            Ok(_) => {},
        }
        match next_slot {
            Some(to) => {
                let added = self.games[to].add_team(advancing);
                assert(added is Ok);
            },
            None => {},
        }
        proof {
            let after = before.declare_state(id, name@);
            before.lemma_declare_preserves(id, name@);
            assert(self@.games =~= after.games) by {
                assert forall|g: GameId| self@.games.dom().contains(g) implies #[trigger] self@.games[g] == after.games[g] by {
                    lemma_slot_in_range(n, g);
                    if g != id && Some(g) != next {
                        if slot_of(n, g) == slot as int {
                            lemma_slot_injective(n, g, id);
                        }
                        if next is Some && slot_of(n, g) == slot_of(n, next->0) {
                            lemma_slot_injective(n, g, next->0);
                        }
                    }
                }
            }
            assert(self@ == after);
        }
        Ok(next)
    }
}

/// A bracket whose games have all been laid out, indexed and linked is the
/// bracket drawn for its participants.
proof fn lemma_drawn_is_initial(bracket: Bracket, names: Seq<Seq<char>>)
    requires
        1 <= names.len() <= usize::MAX,
        bracket.entrants == names.len(),
        bracket.games@.len() == game_count(names.len()),
        laid_out(bracket.games@, names.len()),
        indexed(bracket.games@, index_entries(bracket.index)),
        drawn(bracket.games@, names, game_count(names.len()) - 1),
    ensures
        bracket.wf(),
        bracket@ == initial(names),
{
    let n = names.len();
    let games = bracket.games@;
    let last = round_count(n);
    lemma_rounds_after_bounds(half_up(n));
    lemma_final_round(n, last);
    assert forall|i: int| 0 <= i < games.len() implies valid_id(n, (#[trigger] games[i]).id)
        && games[i].next_game == next_of(n, games[i].id) && games[i]@ == seeded(names, games[i].id) by {
        let id = games[i].id;
        assert(slot_of(n, id) == i);
        if id.round > last {
            lemma_round_start_monotone(n, last + 1, id.round as nat);
        }
        if id.round < last {
            lemma_round_start_monotone(n, (id.round + 1) as nat, last);
        }
    }
    assert(bracket@.games =~= initial(names).games) by {
        assert forall|id: GameId| valid_id(n, id) implies #[trigger] bracket@.games[id] == initial(names).games[id] by {
            lemma_slot_in_range(n, id);
        }
    }
    assert forall|id: GameId| bracket@.has(id) && id.round >= 2 implies #[trigger] bracket@.balanced_at(id) by {}
}

impl View for Bracket {
    type V = BracketView;

    closed spec fn view(&self) -> BracketView {
        BracketView {
            entrants: self.entrants as nat,
            games: Map::new(
                |id: GameId| valid_id(self.entrants as nat, id),
                |id: GameId| self.games@[slot_of(self.entrants as nat, id)]@,
            ),
        }
    }
}

} // verus!
