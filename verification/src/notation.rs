//! Decimal notation, and the text of a game id.

use vstd::prelude::*;
use vstd::string::{StrSliceExecFns, StringExecFns};
use crate::game::GameId;

verus! {

/// The character that stands for the digit `d`.
pub open spec fn digit(d: nat) -> char {
    (48 + d) as char
}

/// `c` is one of the ten digits.
pub open spec fn is_digit(c: char) -> bool {
    48 <= c as int <= 57
}

/// `n` in decimal notation: no sign, and no leading zero except for zero
/// itself.
pub open spec fn decimal(n: nat) -> Seq<char>
    decreases n,
{
    if n < 10 {
        seq![digit(n)]
    } else {
        decimal(n / 10).push(digit(n % 10))
    }
}

/// The text of a game id: round and position in decimal notation with a
/// hyphen between them.
pub open spec fn id_text(id: GameId) -> Seq<char> {
    decimal(id.round as nat) + seq!['-'] + decimal(id.position as nat)
}

/// `text` is made of digits and is written as `decimal` writes: it is not
/// empty, and it starts with a zero only if it is the single digit zero.
pub open spec fn canonical(text: Seq<char>) -> bool {
    &&& text.len() >= 1
    &&& forall|i: int| 0 <= i < text.len() ==> is_digit(#[trigger] text[i])
    &&& text.len() == 1 || text[0] != '0'
}

/// The number that a text of digits stands for.
pub open spec fn value_of(text: Seq<char>) -> nat
    decreases text.len(),
{
    if text.len() == 0 {
        0
    } else {
        value_of(text.drop_last()) * 10 + (text.last() as int - 48) as nat
    }
}

/// What `decimal` writes is canonical and stands for the number written.
pub proof fn lemma_decimal_canonical(n: nat)
    ensures
        canonical(decimal(n)),
        value_of(decimal(n)) == n,
        n >= 1 ==> decimal(n)[0] != '0',
    decreases n,
{
    if n < 10 {
        assert(decimal(n).drop_last() =~= Seq::<char>::empty());
        assert(value_of(Seq::<char>::empty()) == 0);
    } else {
        lemma_decimal_canonical(n / 10);
        assert(decimal(n).drop_last() =~= decimal(n / 10));
    }
}

/// A text of digits that does not start with a zero stands for a number
/// that is not zero.
proof fn lemma_value_positive(text: Seq<char>)
    requires
        text.len() >= 1,
        forall|i: int| 0 <= i < text.len() ==> is_digit(#[trigger] text[i]),
        text[0] != '0',
    ensures
        value_of(text) >= 1,
    decreases text.len(),
{
    if text.len() > 1 {
        lemma_value_positive(text.drop_last());
    } else {
        assert(text.drop_last() =~= Seq::<char>::empty());
        assert(value_of(Seq::<char>::empty()) == 0);
    }
}

/// A canonical text is the decimal notation of the number it stands for.
pub proof fn lemma_canonical_decimal(text: Seq<char>)
    requires
        canonical(text),
    ensures
        decimal(value_of(text)) == text,
    decreases text.len(),
{
    let head = text.drop_last();
    let d = (text.last() as int - 48) as nat;
    if text.len() == 1 {
        assert(head =~= Seq::<char>::empty());
        assert(value_of(head) == 0);
        assert(decimal(d) =~= text);
    } else {
        assert(canonical(head)) by {
            if head.len() > 1 {
            } else {
                assert(head[0] == text[0]);
            }
        }
        lemma_canonical_decimal(head);
        lemma_value_positive(head);
        let v = value_of(head) * 10 + d;
        assert(v / 10 == value_of(head) && v % 10 == d);
        assert(decimal(v) =~= text);
    }
}

/// A text of digits stands for at least as much as any of its beginnings.
proof fn lemma_value_grows(text: Seq<char>, upto: int)
    requires
        0 <= upto <= text.len(),
        forall|i: int| 0 <= i < text.len() ==> is_digit(#[trigger] text[i]),
    ensures
        value_of(text.subrange(0, upto)) <= value_of(text),
    decreases text.len() - upto,
{
    if upto == text.len() {
        assert(text.subrange(0, upto) =~= text);
    } else {
        lemma_value_grows(text.drop_last(), upto);
        assert(text.drop_last().subrange(0, upto) =~= text.subrange(0, upto));
    }
}

/// The single digit `d` as a text.
fn digit_text(d: u64) -> (text: &'static str)
    requires
        d < 10,
    ensures
        text@ == seq![digit(d as nat)],
{
    proof {
        reveal_strlit("0");
        reveal_strlit("1");
        reveal_strlit("2");
        reveal_strlit("3");
        reveal_strlit("4");
        reveal_strlit("5");
        reveal_strlit("6");
        reveal_strlit("7");
        reveal_strlit("8");
        reveal_strlit("9");
    }
    let text = if d == 0 {
        "0"
    } else if d == 1 {
        "1"
    } else if d == 2 {
        "2"
    } else if d == 3 {
        "3"
    } else if d == 4 {
        "4"
    } else if d == 5 {
        "5"
    } else if d == 6 {
        "6"
    } else if d == 7 {
        "7"
    } else if d == 8 {
        "8"
    } else {
        "9"
    };
    assert(text@ =~= seq![digit(d as nat)]);
    text
}

/// Writes `n` in decimal notation.
pub fn decimal_string(n: u64) -> (text: String)
    ensures
        text@ == decimal(n as nat),
    decreases n,
{
    if n < 10 {
        String::from_str(digit_text(n))
    } else {
        let mut text = decimal_string(n / 10);
        text.append(digit_text(n % 10));
        assert(text@ =~= decimal(n as nat));
        text
    }
}

/// Reads a number in decimal notation. Only what `decimal` writes for a
/// number that fits is read: digits alone, without a leading zero.
pub fn parse_decimal(text: &str) -> (value: Option<u64>)
    ensures
        match value {
            Some(v) => text@ == decimal(v as nat),
            None => forall|v: u64| text@ != decimal(v as nat),
        },
{
    let len = text.unicode_len();
    if len == 0 {
        proof {
            assert forall|v: u64| text@ != decimal(v as nat) by {
                lemma_decimal_canonical(v as nat);
            }
        }
        return None;
    }
    if len > 1 && text.get_char(0) == '0' {
        proof {
            assert forall|v: u64| text@ != decimal(v as nat) by {
                lemma_decimal_canonical(v as nat);
            }
        }
        return None;
    }
    let mut value: u64 = 0;
    let mut i: usize = 0;
    while i < len
        invariant
            i <= len,
            len == text@.len(),
            forall|j: int| 0 <= j < i ==> is_digit(#[trigger] text@[j]),
            value == value_of(text@.subrange(0, i as int)),
        decreases len - i,
    {
        let c = text.get_char(i);
        if !(c >= '0' && c <= '9') {
            proof {
                assert forall|v: u64| text@ != decimal(v as nat) by {
                    lemma_decimal_canonical(v as nat);
                    if text@ == decimal(v as nat) {
                        assert(is_digit(text@[i as int]));
                    }
                }
            }
            return None;
        }
        let d: u64 = (c as u32 - 48) as u64;
        proof {
            let longer = text@.subrange(0, i + 1);
            assert(longer.drop_last() =~= text@.subrange(0, i as int));
            assert(value_of(longer) == value * 10 + d);
        }
        if value > (u64::MAX - d) / 10 {
            proof {
                assert forall|v: u64| text@ != decimal(v as nat) by {
                    lemma_decimal_canonical(v as nat);
                    if text@ == decimal(v as nat) {
                        lemma_value_grows(text@, i + 1);
                    }
                }
            }
            return None;
        }
        value = value * 10 + d;
        i += 1;
    }
    proof {
        assert(text@.subrange(0, len as int) =~= text@);
        lemma_canonical_decimal(text@);
    }
    Some(value)
}

/// Two ids with the same text are the same id.
pub proof fn lemma_id_text_injective(a: GameId, b: GameId)
    requires
        id_text(a) == id_text(b),
    ensures
        a == b,
{
    let first = decimal(a.round as nat);
    let other = decimal(b.round as nat);
    lemma_decimal_canonical(a.round as nat);
    lemma_decimal_canonical(b.round as nat);
    lemma_decimal_canonical(a.position as nat);
    lemma_decimal_canonical(b.position as nat);
    assert(id_text(a)[first.len() as int] == '-');
    assert(id_text(b)[other.len() as int] == '-');
    if first.len() < other.len() {
        assert(id_text(b)[first.len() as int] == other[first.len() as int]);
    }
    if other.len() < first.len() {
        assert(id_text(a)[other.len() as int] == first[other.len() as int]);
    }
    assert(first =~= id_text(a).subrange(0, first.len() as int));
    assert(other =~= id_text(b).subrange(0, other.len() as int));
    assert(decimal(a.position as nat) =~= id_text(a).subrange(first.len() as int + 1, id_text(a).len() as int));
    assert(decimal(b.position as nat) =~= id_text(b).subrange(other.len() as int + 1, id_text(b).len() as int));
}

/// The id that a text stands for, if it is the text of an id.
pub open spec fn id_of_text(text: Seq<char>) -> Option<GameId> {
    if exists|id: GameId| id_text(id) == text {
        Some(choose|id: GameId| id_text(id) == text)
    } else {
        None
    }
}

/// Reading the text of an id gives the id.
pub proof fn lemma_id_of_text(id: GameId)
    ensures
        id_of_text(id_text(id)) == Some(id),
{
    let found = choose|other: GameId| id_text(other) == id_text(id);
    lemma_id_text_injective(found, id);
}

impl GameId {
    /// The id as text: round, hyphen, position.
    pub fn to_string(&self) -> (text: String)
        ensures
            text@ == id_text(*self),
    {
        let mut text = decimal_string(self.round);
        text.append("-");
        let position = decimal_string(self.position);
        text.append(position.as_str());
        proof {
            reveal_strlit("-");
            assert("-"@ =~= seq!['-']);
        }
        text
    }

    /// Reads an id from its text. Exactly the texts that `to_string` writes
    /// are read, each as the id that it was written for.
    pub fn parse(text: &str) -> (id: Option<GameId>)
        ensures
            id == id_of_text(text@),
            match id {
                Some(id) => text@ == id_text(id),
                None => forall|id: GameId| text@ != id_text(id),
            },
    {
        let len = text.unicode_len();
        let mut hyphen: usize = 0;
        while hyphen < len && text.get_char(hyphen) != '-'
            invariant
                hyphen <= len,
                len == text@.len(),
                forall|j: int| 0 <= j < hyphen ==> #[trigger] text@[j] != '-',
            decreases len - hyphen,
        {
            hyphen += 1;
        }
        if hyphen == len {
            proof {
                assert forall|id: GameId| text@ != id_text(id) by {
                    let at = decimal(id.round as nat).len() as int;
                    assert(id_text(id)[at] == '-');
                }
            }
            return None;
        }
        let round_text = text.substring_char(0, hyphen);
        let position_text = text.substring_char(hyphen + 1, len);
        proof {
            assert(text@ =~= round_text@ + seq!['-'] + position_text@);
            assert forall|id: GameId| text@ == id_text(id) implies round_text@ == decimal(id.round as nat)
                && position_text@ == decimal(id.position as nat) by {
                let written = decimal(id.round as nat);
                let at = written.len() as int;
                lemma_decimal_canonical(id.round as nat);
                assert(id_text(id)[at] == '-');
                if hyphen < at {
                    assert(id_text(id)[hyphen as int] == written[hyphen as int]);
                    assert(is_digit(written[hyphen as int]));
                }
                assert(hyphen == at);
                assert(round_text@ =~= written);
                assert(position_text@ =~= decimal(id.position as nat));
            }
        }
        let round = match parse_decimal(round_text) {
            Some(round) => round,
            None => {
                return None;
            },
        };
        let position = match parse_decimal(position_text) {
            Some(position) => position,
            None => {
                return None;
            },
        };
        let id = GameId { round, position };
        proof {
            lemma_id_of_text(id);
        }
        Some(id)
    }
}

} // verus!
