use fpl::index::{
    contains_chars, create_player_map, create_team_map, find_team_ids_by_name, lookup_name,
    team_matches_folded,
};
use fpl::models::{Element, Team};

fn team(id: u64, name: &str, short: &str) -> Team {
    Team { id, name: name.to_string(), short_name: short.to_string(), strength: 3 }
}

fn teams() -> Vec<Team> {
    vec![
        team(1, "Arsenal", "ARS"),
        team(2, "Aston Villa", "AVL"),
        team(3, "Manchester City", "MCI"),
        team(4, "Manchester Utd", "MUN"),
    ]
}

#[test]
fn team_search_ignores_case() {
    assert_eq!(find_team_ids_by_name(&teams(), "ARSENAL"), vec![1]);
    assert_eq!(find_team_ids_by_name(&teams(), "manchester"), vec![3, 4]);
}

#[test]
fn team_search_matches_short_code() {
    assert_eq!(find_team_ids_by_name(&teams(), "mun"), vec![4]);
    assert_eq!(find_team_ids_by_name(&teams(), "Avl"), vec![2]);
}

#[test]
fn team_search_empty_query_matches_nothing() {
    assert_eq!(find_team_ids_by_name(&teams(), ""), Vec::<u64>::new());
    assert_eq!(find_team_ids_by_name(&teams(), "chelsea"), Vec::<u64>::new());
}

#[test]
fn folded_query_matching() {
    assert!(team_matches_folded("ast", "aston villa", "avl"));
    assert!(team_matches_folded("avl", "aston villa", "avl"));
    assert!(!team_matches_folded("", "aston villa", "avl"));
    assert!(!team_matches_folded("AST", "aston villa", "avl"));
    assert!(contains_chars("abcabd", "abd"));
    assert!(!contains_chars("ab", "abc"));
    assert!(contains_chars("ab", ""));
}

#[test]
fn maps_resolve_names_and_placeholder() {
    let m = create_team_map(&teams());
    assert_eq!(lookup_name(&m, 3), "Manchester City");
    assert_eq!(lookup_name(&m, 99), "Unknown");
    let dup = vec![team(7, "Old", "OLD"), team(7, "New", "NEW")];
    assert_eq!(lookup_name(&create_team_map(&dup), 7), "New");
    let players = vec![Element {
        id: 5,
        web_name: "Saka".to_string(),
        element_type: 3,
        team: 1,
        now_cost: 100,
        selected_by_percent: "40.0".to_string(),
        form: "6.0".to_string(),
        total_points: 90,
        news: String::new(),
    }];
    let pm = create_player_map(&players);
    assert_eq!(lookup_name(&pm, 5), "Saka");
    assert_eq!(lookup_name(&pm, 6), "Unknown");
}
