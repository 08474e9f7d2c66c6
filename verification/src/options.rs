//! Reading what was typed after a command: flags, names, and lists of
//! names.

use vstd::prelude::*;
use vstd::string::{StrSliceExecFns, StringExecFns};
use crate::names::names_of;
use crate::command::{pieces_of, split_at_mark};

verus! {

/// `c` is white space.
pub open spec fn is_blank(c: char) -> bool {
    let code = c as int;
    ||| 0x09 <= code <= 0x0d
    ||| code == 0x20
    ||| code == 0x85
    ||| code == 0xa0
    ||| code == 0x1680
    ||| 0x2000 <= code <= 0x200a
    ||| code == 0x2028
    ||| code == 0x2029
    ||| code == 0x202f
    ||| code == 0x205f
    ||| code == 0x3000
}

/// Whether `c` is white space.
pub fn blank(c: char) -> (is: bool)
    ensures
        is == is_blank(c),
{
    let code: u32 = c as u32;
    (0x09 <= code && code <= 0x0d) || code == 0x20 || code == 0x85 || code == 0xa0 || code == 0x1680 || (0x2000
        <= code && code <= 0x200a) || code == 0x2028 || code == 0x2029 || code == 0x202f || code == 0x205f
        || code == 0x3000
}

/// The text without the white space at its start.
pub open spec fn trim_start(text: Seq<char>) -> Seq<char>
    decreases text.len(),
{
    if text.len() > 0 && is_blank(text[0]) {
        trim_start(text.drop_first())
    } else {
        text
    }
}

/// The text without the white space at its end.
pub open spec fn trim_end(text: Seq<char>) -> Seq<char>
    decreases text.len(),
{
    if text.len() > 0 && is_blank(text.last()) {
        trim_end(text.drop_last())
    } else {
        text
    }
}

/// The text without the white space around it.
pub open spec fn trimmed(text: Seq<char>) -> Seq<char> {
    trim_end(trim_start(text))
}

/// Takes the white space off both ends of a text.
pub fn trim(text: &str) -> (inner: &str)
    ensures
        inner@ == trimmed(text@),
{
    let len = text.unicode_len();
    let mut from: usize = 0;
    proof {
        assert(text@.subrange(0, len as int) =~= text@);
    }
    while from < len && blank(text.get_char(from))
        invariant
            from <= len,
            len == text@.len(),
            trim_start(text@) == trim_start(text@.subrange(from as int, len as int)),
        decreases len - from,
    {
        proof {
            assert(text@.subrange(from as int, len as int).drop_first() =~= text@.subrange(
                from + 1,
                len as int,
            ));
        }
        from += 1;
    }
    let mut to: usize = len;
    while to > from && blank(text.get_char(to - 1))
        invariant
            from <= to <= len,
            len == text@.len(),
            trim_end(text@.subrange(from as int, len as int)) == trim_end(
                text@.subrange(from as int, to as int),
            ),
        decreases to - from,
    {
        proof {
            assert(text@.subrange(from as int, to as int).drop_last() =~= text@.subrange(
                from as int,
                to - 1,
            ));
        }
        to -= 1;
    }
    text.substring_char(from, to)
}

/// The names in a list that separates them by commas: each piece between
/// two commas, without the white space around it.
pub open spec fn listed(text: Seq<char>) -> Seq<Seq<char>> {
    Seq::new(pieces_of(text, ',').len(), |i: int| trimmed(pieces_of(text, ',')[i]))
}

/// Reads the names from a list that separates them by commas. A single
/// name is a list of one.
pub fn listed_names(text: &str) -> (names: Vec<String>)
    ensures
        names_of(names@) == listed(text@),
{
    let pieces = split_at_mark(text, ',');
    let mut names: Vec<String> = Vec::new();
    let mut i: usize = 0;
    while i < pieces.len()
        invariant
            i <= pieces@.len(),
            names_of(pieces@) == pieces_of(text@, ','),
            names@.len() == i,
            forall|k: int| 0 <= k < i ==> (#[trigger] names@[k])@ == trimmed(pieces@[k]@),
        decreases pieces@.len() - i,
    {
        names.push(String::from_str(trim(pieces[i].as_str())));
        i += 1;
    }
    proof {
        assert forall|k: int| 0 <= k < names@.len() implies names_of(names@)[k] == listed(text@)[k] by {
            assert(names_of(pieces@)[k] == pieces@[k]@);
        }
        assert(names_of(names@) =~= listed(text@));
    }
    names
}

/// `arg` starts with a hyphen, as a flag does.
pub open spec fn dashed(arg: Seq<char>) -> bool {
    arg.len() > 0 && arg[0] == '-'
}

/// Those of `args` that are none of `flags`, in the order given.
pub open spec fn others(args: Seq<Seq<char>>, flags: Seq<Seq<char>>) -> Seq<Seq<char>> {
    args.filter(|a: Seq<char>| !flags.contains(a))
}

/// Those of `args` that are names: none of `flags`, and no hyphen at the
/// start.
pub open spec fn named(args: Seq<Seq<char>>, flags: Seq<Seq<char>>) -> Seq<Seq<char>> {
    others(args, flags).filter(|a: Seq<char>| !dashed(a))
}

/// Those of `args` that look like a flag and are none of `flags`.
pub open spec fn unknown(args: Seq<Seq<char>>, flags: Seq<Seq<char>>) -> Seq<Seq<char>> {
    others(args, flags).filter(|a: Seq<char>| dashed(a))
}

/// Sorts `args` into the flags that were given and the rest.
fn sort_arguments(args: &Vec<String>, flags: &Vec<String>) -> (sorted: (Vec<bool>, Vec<String>))
    ensures
        sorted.0@.len() == flags@.len(),
        forall|k: int|
            0 <= k < flags@.len() ==> #[trigger] sorted.0@[k] == names_of(args@).contains(flags@[k]@),
        names_of(sorted.1@) == others(names_of(args@), names_of(flags@)),
{
    let ghost given = names_of(args@);
    let ghost known = names_of(flags@);
    let ghost rest = |a: Seq<char>| !known.contains(a);
    let mut seen: Vec<bool> = Vec::new();
    let mut k: usize = 0;
    while k < flags.len()
        invariant
            k <= flags@.len(),
            seen@.len() == k,
            forall|j: int| 0 <= j < k ==> !(#[trigger] seen@[j]),
        decreases flags@.len() - k,
    {
        seen.push(false);
        k += 1;
    }
    let mut kept: Vec<String> = Vec::new();
    let mut i: usize = 0;
    proof {
        reveal(Seq::filter);
        assert(given.subrange(0, 0) =~= Seq::<Seq<char>>::empty());
        assert(names_of(kept@) =~= given.subrange(0, 0).filter(rest));
    }
    while i < args.len()
        invariant
            i <= args@.len(),
            given == names_of(args@),
            known == names_of(flags@),
            rest == |a: Seq<char>| !known.contains(a),
            seen@.len() == flags@.len(),
            forall|j: int|
                0 <= j < flags@.len() ==> #[trigger] seen@[j] == given.subrange(0, i as int).contains(
                    flags@[j]@,
                ),
            names_of(kept@) == given.subrange(0, i as int).filter(rest),
        decreases args@.len() - i,
    {
        let ghost before = given.subrange(0, i as int);
        let ghost longer = given.subrange(0, i + 1);
        let ghost marks = seen@;
        let ghost held = names_of(kept@);
        proof {
            reveal(Seq::filter);
            assert(longer.drop_last() =~= before);
            assert(longer.last() == args@[i as int]@);
            assert forall|x: Seq<char>| longer.contains(x) <==> (before.contains(x) || x == args@[i as int]@) by {
                if before.contains(x) {
                    let j = choose|j: int| 0 <= j < before.len() && before[j] == x;
                    assert(longer[j] == x);
                }
                if x == args@[i as int]@ {
                    assert(longer[i as int] == x);
                }
                if longer.contains(x) {
                    let j = choose|j: int| 0 <= j < longer.len() && longer[j] == x;
                    if j < i {
                        assert(before[j] == x);
                    }
                }
            }
        }
        let mut is_flag = false;
        let mut k: usize = 0;
        while k < flags.len()
            invariant
                k <= flags@.len(),
                i < args@.len(),
                known == names_of(flags@),
                seen@.len() == flags@.len(),
                forall|x: Seq<char>| longer.contains(x) <==> (before.contains(x) || x == args@[i as int]@),
                forall|j: int| 0 <= j < k ==> #[trigger] seen@[j] == longer.contains(flags@[j]@),
                forall|j: int| k <= j < flags@.len() ==> #[trigger] seen@[j] == before.contains(flags@[j]@),
                is_flag <==> exists|j: int| 0 <= j < k && #[trigger] known[j] == args@[i as int]@,
            decreases flags@.len() - k,
        {
            if flags[k] == args[i] {
                seen.set(k, true);
                is_flag = true;
                assert(known[k as int] == args@[i as int]@);
            }
            k += 1;
        }
        if is_flag {
            proof {
                assert(known.contains(args@[i as int]@));
                assert(names_of(kept@) =~= longer.filter(rest));
            }
        } else {
            kept.push(args[i].clone());
            proof {
                assert(!known.contains(args@[i as int]@));
                assert(names_of(kept@) =~= held.push(args@[i as int]@));
                assert(names_of(kept@) =~= longer.filter(rest));
            }
        }
        i += 1;
    }
    proof {
        assert(given.subrange(0, args@.len() as int) =~= given);
    }
    (seen, kept)
}

/// Parts `rest` into names and what looks like a flag.
fn part_dashed(rest: Vec<String>) -> (parted: (Vec<String>, Vec<String>))
    ensures
        names_of(parted.0@) == names_of(rest@).filter(|a: Seq<char>| !dashed(a)),
        names_of(parted.1@) == names_of(rest@).filter(|a: Seq<char>| dashed(a)),
{
    let ghost given = names_of(rest@);
    let ghost plain = |a: Seq<char>| !dashed(a);
    let ghost flagged = |a: Seq<char>| dashed(a);
    let mut names: Vec<String> = Vec::new();
    let mut invalid: Vec<String> = Vec::new();
    let mut i: usize = 0;
    proof {
        reveal(Seq::filter);
        assert(given.subrange(0, 0) =~= Seq::<Seq<char>>::empty());
        assert(names_of(names@) =~= given.subrange(0, 0).filter(plain));
        assert(names_of(invalid@) =~= given.subrange(0, 0).filter(flagged));
    }
    while i < rest.len()
        invariant
            i <= rest@.len(),
            given == names_of(rest@),
            plain == |a: Seq<char>| !dashed(a),
            flagged == |a: Seq<char>| dashed(a),
            names_of(names@) == given.subrange(0, i as int).filter(plain),
            names_of(invalid@) == given.subrange(0, i as int).filter(flagged),
        decreases rest@.len() - i,
    {
        let ghost longer = given.subrange(0, i + 1);
        let ghost held = names_of(names@);
        let ghost refused = names_of(invalid@);
        proof {
            reveal(Seq::filter);
            assert(longer.drop_last() =~= given.subrange(0, i as int));
            assert(longer.last() == rest@[i as int]@);
        }
        let arg = rest[i].as_str();
        if arg.unicode_len() > 0 && arg.get_char(0) == '-' {
            invalid.push(rest[i].clone());
            proof {
                assert(names_of(invalid@) =~= refused.push(rest@[i as int]@));
                assert(names_of(invalid@) =~= longer.filter(flagged));
                assert(names_of(names@) =~= longer.filter(plain));
            }
        } else {
            names.push(rest[i].clone());
            proof {
                assert(names_of(names@) =~= held.push(rest@[i as int]@));
                assert(names_of(names@) =~= longer.filter(plain));
                assert(names_of(invalid@) =~= longer.filter(flagged));
            }
        }
        i += 1;
    }
    proof {
        assert(given.subrange(0, rest@.len() as int) =~= given);
    }
    (names, invalid)
}

/// What follows the command that starts a tournament.
#[derive(Debug)]
pub struct TournamentArguments {
    /// The teams, in the order given.
    pub teams: Vec<String>,
    /// `-random`: seat the teams in a random order.
    pub random: bool,
    /// `-all`: every member of the server takes part.
    pub all: bool,
    /// What looked like a flag and is none.
    pub invalid: Vec<String>,
}

/// The flags of the command that starts a tournament.
pub open spec fn tournament_flags() -> Seq<Seq<char>> {
    seq!["-random"@, "-all"@]
}

/// Reads what follows the command that starts a tournament.
pub fn tournament_arguments(args: &Vec<String>) -> (read: TournamentArguments)
    ensures
        read.random == names_of(args@).contains("-random"@),
        read.all == names_of(args@).contains("-all"@),
        names_of(read.teams@) == named(names_of(args@), tournament_flags()),
        names_of(read.invalid@) == unknown(names_of(args@), tournament_flags()),
{
    let mut flags: Vec<String> = Vec::new();
    flags.push(String::from_str("-random"));
    flags.push(String::from_str("-all"));
    assert(names_of(flags@) =~= tournament_flags());
    let (seen, rest) = sort_arguments(args, &flags);
    let (teams, invalid) = part_dashed(rest);
    TournamentArguments { teams, random: seen[0], all: seen[1], invalid }
}

/// What follows the command that makes named teams.
#[derive(Debug)]
pub struct TeamArguments {
    /// The names of the teams, in the order given.
    pub teams: Vec<String>,
    /// `-all`: every member of the server is dealt out.
    pub all: bool,
    /// `-random`: deal the people out in a random order.
    pub random: bool,
    /// `-role`: make a role for each team.
    pub role: bool,
    /// `-channel`: make a channel for each team.
    pub channel: bool,
    /// What looked like a flag and is none.
    pub invalid: Vec<String>,
}

/// The flags of the command that makes named teams.
pub open spec fn team_flags() -> Seq<Seq<char>> {
    seq!["-all"@, "-random"@, "-role"@, "-channel"@]
}

/// Reads what follows the command that makes named teams.
pub fn team_arguments(args: &Vec<String>) -> (read: TeamArguments)
    ensures
        read.all == names_of(args@).contains("-all"@),
        read.random == names_of(args@).contains("-random"@),
        read.role == names_of(args@).contains("-role"@),
        read.channel == names_of(args@).contains("-channel"@),
        names_of(read.teams@) == named(names_of(args@), team_flags()),
        names_of(read.invalid@) == unknown(names_of(args@), team_flags()),
{
    let mut flags: Vec<String> = Vec::new();
    flags.push(String::from_str("-all"));
    flags.push(String::from_str("-random"));
    flags.push(String::from_str("-role"));
    flags.push(String::from_str("-channel"));
    assert(names_of(flags@) =~= team_flags());
    let (seen, rest) = sort_arguments(args, &flags);
    let (teams, invalid) = part_dashed(rest);
    TeamArguments { teams, all: seen[0], random: seen[1], role: seen[2], channel: seen[3], invalid }
}

/// The flags that follow the number in the command that makes numbered
/// groups.
#[derive(Clone, Copy, Debug, PartialEq, Eq, Structural)]
pub struct GroupArguments {
    /// `-all`: every member of the server is dealt out.
    pub all: bool,
    /// `-random`: deal the people out in a random order.
    pub random: bool,
    /// `-role`: make a role for each group.
    pub role: bool,
    /// `-channel`: make a channel for each group.
    pub channel: bool,
    /// `-size`: the number is the size of a group, not the number of groups.
    pub size: bool,
}

/// The flags of the command that makes numbered groups.
pub open spec fn group_flags() -> Seq<Seq<char>> {
    seq!["-all"@, "-random"@, "-role"@, "-channel"@, "-size"@]
}

/// Reads the flags of the command that makes numbered groups. Anything
/// that is no flag is refused; the first such argument is handed back.
pub fn group_arguments(args: &Vec<String>) -> (read: Result<GroupArguments, String>)
    ensures
        match read {
            Ok(flags) => {
                &&& others(names_of(args@), group_flags()).len() == 0
                &&& flags.all == names_of(args@).contains("-all"@)
                &&& flags.random == names_of(args@).contains("-random"@)
                &&& flags.role == names_of(args@).contains("-role"@)
                &&& flags.channel == names_of(args@).contains("-channel"@)
                &&& flags.size == names_of(args@).contains("-size"@)
            },
            Err(arg) => {
                &&& others(names_of(args@), group_flags()).len() > 0
                &&& arg@ == others(names_of(args@), group_flags())[0]
            },
        },
{
    let mut flags: Vec<String> = Vec::new();
    flags.push(String::from_str("-all"));
    flags.push(String::from_str("-random"));
    flags.push(String::from_str("-role"));
    flags.push(String::from_str("-channel"));
    flags.push(String::from_str("-size"));
    assert(names_of(flags@) =~= group_flags());
    let (seen, rest) = sort_arguments(args, &flags);
    if rest.len() > 0 {
        assert(names_of(rest@)[0] == rest@[0]@);
        Err(rest[0].clone())
    } else {
        Ok(GroupArguments { all: seen[0], random: seen[1], role: seen[2], channel: seen[3], size: seen[4] })
    }
}

} // verus!
