use fpl::breakdown::compute_stats_points;
use fpl::models::{LiveExplain, LiveExplainStat};

fn stat(id: &str, points: i64) -> LiveExplainStat {
    LiveExplainStat { identifier: id.to_string(), points, value: 1 }
}

#[test]
fn no_explanation_records_give_all_zero() {
    let b = compute_stats_points(&vec![]);
    assert_eq!(b.minutes, 0);
    assert_eq!(b.goals_scored, 0);
    assert_eq!(b.assists, 0);
    assert_eq!(b.clean_sheets, 0);
    assert_eq!(b.goals_conceded, 0);
    assert_eq!(b.saves, 0);
    assert_eq!(b.penalties_saved, 0);
    assert_eq!(b.penalties_missed, 0);
    assert_eq!(b.yellow_cards, 0);
    assert_eq!(b.red_cards, 0);
    assert_eq!(b.own_goals, 0);
    assert_eq!(b.bonus, 0);
}

#[test]
fn double_gameweek_points_add_up() {
    let explain = vec![
        LiveExplain { fixture: 10, stats: vec![stat("minutes", 2), stat("goals_scored", 4)] },
        LiveExplain {
            fixture: 11,
            stats: vec![stat("minutes", 2), stat("goals_scored", 4), stat("yellow_cards", -1)],
        },
    ];
    let b = compute_stats_points(&explain);
    assert_eq!(b.minutes, 4);
    assert_eq!(b.goals_scored, 8);
    assert_eq!(b.yellow_cards, -1);
    assert_eq!(b.assists, 0);
}

#[test]
fn every_category_is_filled_and_unknown_identifiers_ignored() {
    let names = [
        "minutes", "goals_scored", "assists", "clean_sheets", "goals_conceded", "saves",
        "penalties_saved", "penalties_missed", "yellow_cards", "red_cards", "own_goals", "bonus",
    ];
    let mut stats: Vec<LiveExplainStat> =
        names.iter().enumerate().map(|(i, n)| stat(n, i as i64 + 1)).collect();
    stats.push(stat("defensive_contribution", 100));
    stats.push(stat("Minutes", 100));
    let b = compute_stats_points(&vec![LiveExplain { fixture: 1, stats }]);
    assert_eq!(
        [
            b.minutes, b.goals_scored, b.assists, b.clean_sheets, b.goals_conceded, b.saves,
            b.penalties_saved, b.penalties_missed, b.yellow_cards, b.red_cards, b.own_goals,
            b.bonus
        ],
        [1, 2, 3, 4, 5, 6, 7, 8, 9, 10, 11, 12]
    );
}

#[test]
fn category_totals_hold_at_the_bounds() {
    let explain = vec![LiveExplain {
        fixture: 1,
        stats: vec![stat("bonus", i64::MAX), stat("bonus", 5), stat("saves", i64::MIN), stat("saves", -1)],
    }];
    let b = compute_stats_points(&explain);
    assert_eq!(b.bonus, i64::MAX);
    assert_eq!(b.saves, i64::MIN);
}
