use fpl::index::{create_player_map, create_team_map};
use fpl::models::{
    DreamTeamTeam, Element, Event, Fixture, LiveElement, LiveExplain, LiveExplainStat, LiveStats,
    Pick, Team,
};
use fpl::views::{
    create_points_map, dream_team_rows, event_status, fixture_rows, live_rows, lookup_points,
    next_event_id, pick_rows,
};

fn player(id: u64, name: &str) -> Element {
    Element {
        id,
        web_name: name.to_string(),
        element_type: 3,
        team: 1,
        now_cost: 50,
        selected_by_percent: "1.0".to_string(),
        form: "1.0".to_string(),
        total_points: 0,
        news: String::new(),
    }
}

fn stats(total: i64) -> LiveStats {
    LiveStats {
        assists: 0,
        bonus: 0,
        bps: 0,
        clean_sheets: 0,
        clearances_blocks_interceptions: 0,
        creativity: "0.0".to_string(),
        defensive_contribution: 0,
        expected_assists: "0.00".to_string(),
        expected_goal_involvements: "0.00".to_string(),
        expected_goals: "0.00".to_string(),
        expected_goals_conceded: "0.00".to_string(),
        goals_conceded: 0,
        goals_scored: 0,
        ict_index: "0.0".to_string(),
        in_dreamteam: false,
        influence: "0.0".to_string(),
        minutes: 90,
        own_goals: 0,
        penalties_missed: 0,
        penalties_saved: 0,
        recoveries: 0,
        red_cards: 0,
        saves: 0,
        starts: 1,
        tackles: 0,
        threat: "0.0".to_string(),
        total_points: total,
        yellow_cards: 0,
    }
}

fn live(id: u64, total: i64, explain: Vec<LiveExplain>) -> LiveElement {
    LiveElement { id, stats: stats(total), explain }
}

fn pick(element: u64, position: u32, captain: bool) -> Pick {
    Pick {
        element,
        position,
        multiplier: if captain { 2 } else { 1 },
        is_captain: captain,
        is_vice_captain: false,
        element_type: 3,
    }
}

fn event(id: u64, is_current: bool, is_next: bool, finished: bool) -> Event {
    Event {
        id,
        name: format!("Gameweek {}", id),
        is_current,
        is_next,
        deadline_time: "2024-01-01T11:00:00Z".to_string(),
        finished,
    }
}

fn fixture(id: u64, event: u64, finished: bool, kickoff: &str, h: u64, a: u64) -> Fixture {
    Fixture {
        id,
        event: Some(event),
        kickoff_time: Some(kickoff.to_string()),
        team_h: h,
        team_a: a,
        finished,
    }
}

fn teams() -> Vec<Team> {
    vec![
        Team { id: 1, name: "Arsenal".to_string(), short_name: "ARS".to_string(), strength: 4 },
        Team { id: 2, name: "Chelsea".to_string(), short_name: "CHE".to_string(), strength: 4 },
    ]
}

#[test]
fn pick_missing_from_live_shows_zero_points() {
    let names = create_player_map(&vec![player(1, "Raya"), player(2, "Saka")]);
    let points = create_points_map(&vec![live(1, 6, vec![])]);
    let rows = pick_rows(&vec![pick(1, 1, false), pick(2, 2, true), pick(3, 3, false)], &names, &points);
    assert_eq!(rows.len(), 3);
    assert_eq!(rows[0].points, 6);
    assert_eq!(rows[1].points, 0);
    assert_eq!(rows[1].name, "Saka");
    assert!(rows[1].is_captain);
    assert_eq!(rows[2].points, 0);
    assert_eq!(rows[2].name, "Unknown");
    assert_eq!(lookup_points(&points, 42), 0);
}

#[test]
fn dream_team_rows_ordered_by_points_descending() {
    let names = create_player_map(&vec![player(1, "A"), player(2, "B"), player(3, "C")]);
    let team = vec![
        DreamTeamTeam { element: 1, points: 8, position: 1 },
        DreamTeamTeam { element: 2, points: 15, position: 2 },
        DreamTeamTeam { element: 3, points: 11, position: 3 },
        DreamTeamTeam { element: 4, points: 15, position: 4 },
    ];
    let rows = dream_team_rows(team, &names);
    let got: Vec<(u64, i64)> = rows.iter().map(|r| (r.element, r.points)).collect();
    assert_eq!(got, vec![(2, 15), (4, 15), (3, 11), (1, 8)]);
    assert_eq!(rows[1].name, "Unknown");
}

#[test]
fn fixture_view_keeps_unfinished_fixtures_of_next_event() {
    let events = vec![event(1, false, false, false), event(2, false, true, false)];
    let fixtures = vec![
        fixture(10, 2, false, "2024-01-02T12:00Z", 1, 2),
        fixture(11, 2, true, "2024-01-02T15:00Z", 2, 1),
        fixture(12, 1, false, "2024-01-01T12:00Z", 1, 2),
    ];
    let rows = fixture_rows(&events, fixtures, &create_team_map(&teams()));
    assert_eq!(rows.len(), 1);
    assert_eq!(rows[0].id, 10);
    assert_eq!(rows[0].kickoff_time, "2024-01-02T12:00Z");
    assert_eq!(rows[0].home, "Arsenal");
    assert_eq!(rows[0].away, "Chelsea");
}

#[test]
fn fixture_view_orders_by_kickoff_and_needs_a_next_event() {
    let events = vec![event(1, true, false, false), event(2, false, true, false)];
    let make = || {
        vec![
            fixture(20, 2, false, "2024-01-03T15:00:00Z", 1, 2),
            fixture(21, 2, false, "2024-01-02T12:30:00Z", 2, 1),
            fixture(22, 2, false, "2024-01-03T15:00:00Z", 2, 3),
            Fixture { id: 23, event: None, kickoff_time: None, team_h: 1, team_a: 2, finished: false },
        ]
    };
    let rows = fixture_rows(&events, make(), &create_team_map(&teams()));
    let got: Vec<u64> = rows.iter().map(|r| r.id).collect();
    assert_eq!(got, vec![21, 20, 22]);
    assert_eq!(rows[2].away, "Unknown");
    let no_next = vec![event(1, true, false, false)];
    assert!(fixture_rows(&no_next, make(), &create_team_map(&teams())).is_empty());
    assert_eq!(next_event_id(&events), Some(2));
    assert_eq!(next_event_id(&no_next), None);
}

#[test]
fn live_rows_sorted_limited_with_breakdown() {
    let names = create_player_map(&vec![player(1, "A"), player(2, "B"), player(3, "C")]);
    let ex = |g: i64| {
        vec![LiveExplain {
            fixture: 1,
            stats: vec![LiveExplainStat { identifier: "goals_scored".to_string(), points: g, value: 1 }],
        }]
    };
    let elements = vec![live(1, 2, ex(0)), live(2, 9, ex(5)), live(3, 6, ex(4))];
    let rows = live_rows(elements, &names, 2);
    assert_eq!(rows.len(), 2);
    assert_eq!((rows[0].id, rows[0].total_points, rows[0].breakdown.goals_scored), (2, 9, 5));
    assert_eq!((rows[1].id, rows[1].name.as_str()), (3, "C"));
    assert_eq!(rows[1].breakdown.goals_scored, 4);
}

#[test]
fn gameweek_status_priority() {
    assert_eq!(event_status(&event(1, true, true, true)), "Current");
    assert_eq!(event_status(&event(1, false, true, true)), "Next");
    assert_eq!(event_status(&event(1, false, false, true)), "Finished");
    assert_eq!(event_status(&event(1, false, false, false)), "Upcoming");
}
