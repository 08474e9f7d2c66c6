use tourney::options::{
    blank, group_arguments, listed_names, team_arguments, tournament_arguments, trim,
};
use tourney::teams::{deal, group_count, group_names, listed_in, render_teams, Team};

fn names(list: &[&str]) -> Vec<String> {
    list.iter().map(|s| s.to_string()).collect()
}

#[test]
fn people_are_dealt_out_in_turn() {
    let people = names(&["a", "b", "c", "d", "e", "f", "g"]);
    assert_eq!(deal(&people, 3), vec![names(&["a", "d", "g"]), names(&["b", "e"]), names(&["c", "f"])]);
    assert_eq!(deal(&people, 1), vec![people.clone()]);
    assert_eq!(deal(&names(&["a"]), 3), vec![names(&["a"]), names(&[]), names(&[])]);
    assert_eq!(deal(&Vec::new(), 2), vec![names(&[]), names(&[])]);
    assert_eq!(deal(&people, 0), Vec::<Vec<String>>::new());
    let many: Vec<String> = (0..50).map(|i| i.to_string()).collect();
    for teams in 1..=9usize {
        let rosters = deal(&many, teams);
        assert_eq!(rosters.len(), teams);
        for (t, roster) in rosters.iter().enumerate() {
            let expected: Vec<String> = (0..50).filter(|i| i % teams == t).map(|i| i.to_string()).collect();
            assert_eq!(roster, &expected);
        }
    }
}

#[test]
fn the_number_of_groups_follows_the_number_or_the_size() {
    assert_eq!(group_count(10, 0, false), None);
    assert_eq!(group_count(10, 0, true), None);
    assert_eq!(group_count(10, 3, false), Some(3));
    assert_eq!(group_count(0, 255, false), Some(255));
    assert_eq!(group_count(10, 3, true), Some(3));
    assert_eq!(group_count(12, 3, true), Some(4));
    assert_eq!(group_count(2, 3, true), Some(1));
    assert_eq!(group_count(3, 3, true), Some(1));
    assert_eq!(group_count(0, 3, true), Some(1));
    assert_eq!(group_count(1000, 1, true), Some(1000));
}

#[test]
fn groups_are_numbered_from_one() {
    assert_eq!(group_names(0), names(&[]));
    assert_eq!(group_names(3), names(&["Group #1", "Group #2", "Group #3"]));
    assert_eq!(group_names(12)[11], "Group #12");
}

#[test]
fn teams_are_rendered_with_their_members() {
    let teams = vec![
        Team { name: "Red".to_string(), members: names(&["a", "c"]) },
        Team { name: "Blue".to_string(), members: names(&["b"]) },
    ];
    assert_eq!(render_teams(&teams), "Red:\n    a\n    c\n\nBlue:\n    b\n\n");
    assert_eq!(render_teams(&vec![Team { name: "Lonely".to_string(), members: names(&[]) }]), "Lonely:\n\n");
    assert_eq!(render_teams(&Vec::new()), "");
}

#[test]
fn a_member_is_found_by_mention_or_by_name() {
    let people = names(&["<@!42>", "Ada"]);
    assert!(listed_in(&people, &"<@!42>".to_string(), &"Grace".to_string()));
    assert!(listed_in(&people, &"<@!7>".to_string(), &"Ada".to_string()));
    assert!(!listed_in(&people, &"<@!7>".to_string(), &"Grace".to_string()));
    assert!(!listed_in(&Vec::new(), &"<@!42>".to_string(), &"Ada".to_string()));
}

#[test]
fn white_space_is_taken_off_both_ends() {
    assert_eq!(trim("  a b  "), "a b");
    assert_eq!(trim("a"), "a");
    assert_eq!(trim(""), "");
    assert_eq!(trim("   "), "");
    assert_eq!(trim("\t\n x\r\n"), "x");
    assert_eq!(trim("\u{a0}x\u{3000}"), "x");
    for text in ["  a b  ", "", " ", "\u{2003}x y\u{2028}", "\u{85}z", "é ", "\u{200b}x"] {
        assert_eq!(trim(text), text.trim());
    }
    for code in 0..0x3100u32 {
        if let Some(c) = char::from_u32(code) {
            assert_eq!(blank(c), c.is_whitespace());
        }
    }
}

#[test]
fn names_are_read_from_a_list() {
    assert_eq!(listed_names("Ada, Grace ,Edsger"), names(&["Ada", "Grace", "Edsger"]));
    assert_eq!(listed_names("Ada"), names(&["Ada"]));
    assert_eq!(listed_names(""), names(&[""]));
    assert_eq!(listed_names("a,,b"), names(&["a", "", "b"]));
    assert_eq!(listed_names(" Ada Lovelace , "), names(&["Ada Lovelace", ""]));
}

#[test]
fn tournament_arguments_are_sorted() {
    let read = tournament_arguments(&names(&["A", "-random", "B", "-wrong", "C", "-role"]));
    assert_eq!(read.teams, names(&["A", "B", "C"]));
    assert!(read.random);
    assert!(!read.all);
    assert_eq!(read.invalid, names(&["-wrong", "-role"]));

    let read = tournament_arguments(&names(&["-all"]));
    assert_eq!(read.teams, names(&[]));
    assert!(read.all);
    assert!(!read.random);
    assert_eq!(read.invalid, names(&[]));

    let read = tournament_arguments(&names(&["", "-", "a-b"]));
    assert_eq!(read.teams, names(&["", "a-b"]));
    assert_eq!(read.invalid, names(&["-"]));
}

#[test]
fn team_arguments_are_sorted() {
    let read = team_arguments(&names(&["Red", "-role", "Blue", "-channel", "-size", "-all", "-random", "Red"]));
    assert_eq!(read.teams, names(&["Red", "Blue", "Red"]));
    assert!(read.all && read.random && read.role && read.channel);
    assert_eq!(read.invalid, names(&["-size"]));

    let read = team_arguments(&names(&["Red"]));
    assert!(!read.all && !read.random && !read.role && !read.channel);
}

#[test]
fn group_arguments_are_flags_only() {
    let read = group_arguments(&names(&["-random", "-all", "-channel", "-role"])).unwrap();
    assert!(read.all && read.random && read.role && read.channel && !read.size);
    let read = group_arguments(&names(&["-size", "-size"])).unwrap();
    assert!(read.size && !read.all && !read.random && !read.role && !read.channel);
    let read = group_arguments(&names(&[])).unwrap();
    assert!(!read.size && !read.all);
    assert_eq!(group_arguments(&names(&["-all", "Ada", "-wrong"])), Err("Ada".to_string()));
    assert_eq!(group_arguments(&names(&["-wrong", "Ada"])), Err("-wrong".to_string()));
}
