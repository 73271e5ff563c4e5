use fpl::api::FplClient;
use fpl::breakdown::compute_stats_points;
use fpl::index::create_team_map;
use fpl::models::{Element, Event, SortBy, Team};
use fpl::players::DEFAULT_LIMIT;
use fpl::render::{format_cost, int_to_text, render_line};
use fpl::tables::{
    dream_team_table, fixture_table, gameweek_table, live_table, pick_table, player_table,
    position_label_of, summary_table, team_table,
};
use fpl::views::{DreamTeamRow, FixtureRow, LiveRow, PickRow};

#[test]
fn cost_has_one_decimal_place() {
    assert_eq!(format_cost(125), "12.5");
    assert_eq!(format_cost(40), "4.0");
    assert_eq!(format_cost(7), "0.7");
    assert_eq!(format_cost(0), "0.0");
}

#[test]
fn integers_in_decimal() {
    assert_eq!(int_to_text(0), "0");
    assert_eq!(int_to_text(1234), "1234");
    assert_eq!(int_to_text(-56), "-56");
    assert_eq!(int_to_text(i128::MIN), i128::MIN.to_string());
    assert_eq!(int_to_text(u64::MAX as i128), u64::MAX.to_string());
}

#[test]
fn lines_pad_cells_to_width() {
    let cells = vec!["ab".to_string(), "toolong".to_string(), "é".to_string()];
    assert_eq!(render_line(&cells, &vec![4, 3, 2]), "ab   toolong é ");
}

#[test]
fn team_table_lines() {
    let teams = vec![Team { id: 1, name: "Arsenal".to_string(), short_name: "ARS".to_string(), strength: 4 }];
    let lines = team_table(&teams);
    assert_eq!(lines.len(), 2);
    assert_eq!(lines[0], format!("{:<4} {:<20} {:<8} {:<8}", "ID", "Name", "Short", "Strength"));
    assert_eq!(lines[1], format!("{:<4} {:<20} {:<8} {:<8}", 1, "Arsenal", "ARS", 4));
}

#[test]
fn player_table_lines() {
    let teams = vec![Team { id: 1, name: "Arsenal".to_string(), short_name: "ARS".to_string(), strength: 4 }];
    let players = vec![
        Element {
            id: 7,
            web_name: "Saka".to_string(),
            element_type: 3,
            team: 1,
            now_cost: 105,
            selected_by_percent: "41.2".to_string(),
            form: "7.5".to_string(),
            total_points: 120,
            news: String::new(),
        },
        Element {
            id: 8,
            web_name: "Nobody".to_string(),
            element_type: 9,
            team: 5,
            now_cost: 45,
            selected_by_percent: "".to_string(),
            form: "".to_string(),
            total_points: -2,
            news: "Injured".to_string(),
        },
    ];
    let lines = player_table(&players, &create_team_map(&teams));
    assert_eq!(lines.len(), 3);
    assert_eq!(
        lines[1],
        format!(
            "{:<4} {:<20} {:<4} {:<16} {:<8} {:<8} {:<8} {:<8} {:<30}",
            7, "Saka", "MID", "Arsenal", "10.5", "41.2", "7.5", 120, ""
        )
    );
    assert_eq!(
        lines[2],
        format!(
            "{:<4} {:<20} {:<4} {:<16} {:<8} {:<8} {:<8} {:<8} {:<30}",
            8, "Nobody", "N/A", "Unknown", "4.5", "", "", -2, "Injured"
        )
    );
    assert_eq!(position_label_of(1), "GKP");
    assert_eq!(position_label_of(0), "N/A");
}

#[test]
fn fixture_table_shows_kickoff_in_utc() {
    let rows = vec![
        FixtureRow {
            id: 3,
            kickoff_time: "2024-01-02T12:30:00Z".to_string(),
            home: "Arsenal".to_string(),
            away: "Chelsea".to_string(),
        },
        FixtureRow {
            id: 4,
            kickoff_time: "not a time".to_string(),
            home: "Unknown".to_string(),
            away: "Chelsea".to_string(),
        },
    ];
    let lines = fixture_table(&rows);
    assert_eq!(
        lines[1],
        format!("{:<4} {:<20} {:<20} {:<20}", 3, "2024-01-02 12:30 UTC", "Arsenal", "Chelsea")
    );
    assert_eq!(
        lines[2],
        format!("{:<4} {:<20} {:<20} {:<20}", 4, "not a time", "Unknown", "Chelsea")
    );
}

#[test]
fn endpoint_addresses() {
    assert_eq!(FplClient::bootstrap_static_url(), "https://fantasy.premierleague.com/api/bootstrap-static/");
    assert_eq!(FplClient::fixtures_url(), "https://fantasy.premierleague.com/api/fixtures/");
    assert_eq!(FplClient::live_url(7), "https://fantasy.premierleague.com/api/event/7/live/");
    assert_eq!(FplClient::dream_team_url(12), "https://fantasy.premierleague.com/api/dream-team/12/");
    assert_eq!(
        FplClient::manager_picks_url(123456, 3),
        "https://fantasy.premierleague.com/api/entry/123456/event/3/picks/"
    );
    assert_eq!(
        FplClient::player_summary_url(301),
        "https://fantasy.premierleague.com/api/element-summary/301/"
    );
}

#[test]
fn gameweek_table_lines() {
    let events = vec![
        Event {
            id: 1,
            name: "Gameweek 1".to_string(),
            is_current: false,
            is_next: false,
            deadline_time: "2024-08-16T17:30:00Z".to_string(),
            finished: true,
        },
        Event {
            id: 2,
            name: "Gameweek 2".to_string(),
            is_current: false,
            is_next: true,
            deadline_time: "2024-08-24T10:00:00Z".to_string(),
            finished: false,
        },
    ];
    let lines = gameweek_table(&events);
    assert_eq!(lines[0], format!("{:<4} {:<16} {:<12} {:<20}", "ID", "Name", "Status", "Deadline"));
    assert_eq!(
        lines[1],
        format!("{:<4} {:<16} {:<12} {:<20}", 1, "Gameweek 1", "Finished", "2024-08-16T17:30:00Z")
    );
    assert_eq!(
        lines[2],
        format!("{:<4} {:<16} {:<12} {:<20}", 2, "Gameweek 2", "Next", "2024-08-24T10:00:00Z")
    );
}

#[test]
fn pick_dream_and_live_table_lines() {
    let picks = vec![PickRow {
        element: 12,
        name: "Raya".to_string(),
        position: 1,
        is_captain: false,
        is_vice_captain: true,
        points: 6,
    }];
    let lines = pick_table(&picks);
    assert_eq!(lines[0], format!("{:<4} {:<20} {:<4} {:<4} {:<4} {:<4}", "ID", "Name", "Pos", "C", "VC", "Pts"));
    assert_eq!(lines[1], format!("{:<4} {:<20} {:<4} {:<4} {:<4} {:<4}", 12, "Raya", 1, "N", "Y", 6));

    let dream = vec![DreamTeamRow { element: 5, name: "Saka".to_string(), points: 17 }];
    let lines = dream_team_table(&dream);
    assert_eq!(lines[0], format!("{:<4} {:<20} {:<12}", "ID", "Name", "Points"));
    assert_eq!(lines[1], format!("{:<4} {:<20} {:<12}", 5, "Saka", 17));

    let b = compute_stats_points(&vec![]);
    let live = vec![LiveRow { id: 3, name: "Salah".to_string(), total_points: 2, breakdown: b }];
    let lines = live_table(&live);
    assert_eq!(lines.len(), 2);
    let mut expected = format!("{:<4} {:<20} {:<8}", 3, "Salah", 2);
    for _ in 0..12 {
        expected.push_str(&format!(" {:<4}", 0));
    }
    assert_eq!(lines[1], expected);
}

#[test]
fn summary_table_lines() {
    let lines = summary_table(&[]);
    assert_eq!(lines, vec![format!("{:<3} {:<3} {:<4} {:<2} {:<2}", "GW", "Pts", "Min", "G", "A")]);
}

#[test]
fn defaults() {
    assert_eq!(SortBy::default(), SortBy::Points);
    assert_eq!(DEFAULT_LIMIT, 20);
}
