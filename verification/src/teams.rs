//! Splitting a list of people into teams or numbered groups, in turn.

use vstd::prelude::*;
use vstd::string::StringExecFns;
use crate::names::names_of;
use crate::notation::{decimal, decimal_string};

verus! {

/// Those of the first `count` of `names` that fall to team `team` when the
/// names are dealt out in turn to `teams` teams: the name at place `i` goes
/// to team `i % teams`, and each team keeps its names in the order given.
pub open spec fn dealt_to(names: Seq<Seq<char>>, count: nat, team: nat, teams: nat) -> Seq<Seq<char>>
    decreases count,
{
    if count == 0 {
        Seq::<Seq<char>>::empty()
    } else {
        let before = dealt_to(names, (count - 1) as nat, team, teams);
        if (count - 1) % (teams as int) == team {
            before.push(names[count - 1])
        } else {
            before
        }
    }
}

/// Deals the people out to `teams` teams in turn. Without a team there is
/// nobody to deal to, and no roster is made.
pub fn deal(people: &Vec<String>, teams: usize) -> (rosters: Vec<Vec<String>>)
    ensures
        rosters@.len() == teams,
        forall|t: int|
            0 <= t < teams ==> names_of((#[trigger] rosters@[t])@) == dealt_to(
                names_of(people@),
                people@.len(),
                t as nat,
                teams as nat,
            ),
{
    let ghost names = names_of(people@);
    let mut rosters: Vec<Vec<String>> = Vec::new();
    let mut t: usize = 0;
    while t < teams
        invariant
            t <= teams,
            rosters@.len() == t,
            forall|k: int| 0 <= k < t ==> (#[trigger] rosters@[k])@.len() == 0,
        decreases teams - t,
    {
        rosters.push(Vec::new());
        t += 1;
    }
    if teams == 0 {
        return rosters;
    }
    let mut i: usize = 0;
    proof {
        assert forall|k: int| 0 <= k < teams implies names_of((#[trigger] rosters@[k])@) == dealt_to(
            names,
            0,
            k as nat,
            teams as nat,
        ) by {
            assert(names_of(rosters@[k]@) =~= Seq::<Seq<char>>::empty());
        }
    }
    while i < people.len()
        invariant
            teams >= 1,
            i <= people@.len(),
            names == names_of(people@),
            rosters@.len() == teams,
            forall|k: int|
                0 <= k < teams ==> names_of((#[trigger] rosters@[k])@) == dealt_to(
                    names,
                    i as nat,
                    k as nat,
                    teams as nat,
                ),
        decreases people@.len() - i,
    {
        let ghost before = rosters@;
        let turn = i % teams;
        rosters[turn].push(people[i].clone());
        proof {
            assert forall|k: int| 0 <= k < teams implies names_of((#[trigger] rosters@[k])@) == dealt_to(
                names,
                (i + 1) as nat,
                k as nat,
                teams as nat,
            ) by {
                if k == turn {
                    assert(names_of(rosters@[k]@) =~= names_of(before[k]@).push(names[i as int]));
                } else {
                    assert(rosters@[k] == before[k]);
                }
            }
        }
        i += 1;
    }
    rosters
}

/// Whether a member of the server is among `people`, under the text that
/// mentions the member or under the name that the server shows.
pub fn listed_in(people: &Vec<String>, mention: &String, shown: &String) -> (found: bool)
    ensures
        found == (names_of(people@).contains(mention@) || names_of(people@).contains(shown@)),
{
    let mut i: usize = 0;
    while i < people.len()
        invariant
            i <= people@.len(),
            forall|k: int| 0 <= k < i ==> (#[trigger] people@[k])@ != mention@ && people@[k]@ != shown@,
        decreases people@.len() - i,
    {
        if people[i] == *mention || people[i] == *shown {
            proof {
                assert(names_of(people@)[i as int] == people@[i as int]@);
            }
            return true;
        }
        i += 1;
    }
    proof {
        let names = names_of(people@);
        if names.contains(mention@) {
            let k = choose|k: int| 0 <= k < names.len() && names[k] == mention@;
            assert(people@[k]@ == mention@);
        }
        if names.contains(shown@) {
            let k = choose|k: int| 0 <= k < names.len() && names[k] == shown@;
            assert(people@[k]@ == shown@);
        }
    }
    false
}

/// How many groups are made of `people` people for the number `number`:
/// `number` groups, or, where `number` is the size of a group, as many
/// groups of that size as the people fill, and one if they fill none.
pub open spec fn group_total(people: nat, number: nat, by_size: bool) -> nat {
    if !by_size {
        number
    } else if people < number {
        1
    } else {
        people / number
    }
}

/// How many groups are made; none can be made for the number 0.
pub fn group_count(people: usize, number: u8, by_size: bool) -> (count: Option<usize>)
    ensures
        number == 0 <==> count is None,
        count matches Some(c) ==> c == group_total(people as nat, number as nat, by_size) && c >= 1,
{
    if number == 0 {
        None
    } else if !by_size {
        Some(number as usize)
    } else if people < number as usize {
        Some(1)
    } else {
        assert(people as int / number as int >= 1) by (nonlinear_arith)
            requires
                people as int >= number as int,
                number as int >= 1,
        ;
        Some(people / (number as usize))
    }
}

/// The name of the group with the given number.
pub open spec fn group_name(number: nat) -> Seq<char> {
    "Group #"@ + decimal(number)
}

/// The names of `count` groups, numbered from 1.
pub fn group_names(count: usize) -> (names: Vec<String>)
    ensures
        names@.len() == count,
        forall|i: int| 0 <= i < count ==> (#[trigger] names@[i])@ == group_name((i + 1) as nat),
{
    let mut names: Vec<String> = Vec::new();
    let mut i: usize = 0;
    while i < count
        invariant
            i <= count,
            names@.len() == i,
            forall|k: int| 0 <= k < i ==> (#[trigger] names@[k])@ == group_name((k + 1) as nat),
        decreases count - i,
    {
        let mut name = String::from_str("Group #");
        name.append(decimal_string(i as u64 + 1).as_str());
        names.push(name);
        i += 1;
    }
    names
}

/// The first `count` of `members`, one to a line, each indented.
pub open spec fn member_lines(members: Seq<String>, count: nat) -> Seq<char>
    decreases count,
{
    if count == 0 {
        Seq::<char>::empty()
    } else {
        member_lines(members, (count - 1) as nat) + "    "@ + members[count - 1]@ + "\n"@
    }
}

/// One team as text: its name with a colon, its members, and an empty line.
pub open spec fn team_text(name: Seq<char>, members: Seq<String>) -> Seq<char> {
    name + ":\n"@ + member_lines(members, members.len()) + "\n"@
}

/// A team: its name and its members.
#[derive(Debug)]
pub struct Team {
    pub name: String,
    pub members: Vec<String>,
}

/// The first `count` teams as text, one after the other.
pub open spec fn teams_text(teams: Seq<Team>, count: nat) -> Seq<char>
    decreases count,
{
    if count == 0 {
        Seq::<char>::empty()
    } else {
        teams_text(teams, (count - 1) as nat) + team_text(teams[count - 1].name@, teams[count - 1].members@)
    }
}

/// The teams with their members as one text.
pub fn render_teams(teams: &Vec<Team>) -> (text: String)
    ensures
        text@ == teams_text(teams@, teams@.len()),
{
    let mut text = String::new();
    let mut t: usize = 0;
    while t < teams.len()
        invariant
            t <= teams@.len(),
            text@ == teams_text(teams@, t as nat),
        decreases teams@.len() - t,
    {
        let ghost done = text@;
        let team = &teams[t];
        text.append(team.name.as_str());
        text.append(":\n");
        let mut m: usize = 0;
        while m < team.members.len()
            invariant
                m <= team.members@.len(),
                text@ == done + team.name@ + ":\n"@ + member_lines(team.members@, m as nat),
            decreases team.members@.len() - m,
        {
            text.append("    ");
            text.append(team.members[m].as_str());
            text.append("\n");
            proof {
                assert(text@ =~= done + team.name@ + ":\n"@ + member_lines(team.members@, (m + 1) as nat));
            }
            m += 1;
        }
        text.append("\n");
        proof {
            assert(text@ =~= teams_text(teams@, (t + 1) as nat));
        }
        t += 1;
    }
    text
}

} // verus!
