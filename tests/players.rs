use fpl::decimal::{decimal_key_of, key_less, whole_key};
use fpl::models::{Element, Position, SortBy};
use fpl::players::{player_passes, select_players};

fn el(id: u64, pos: u64, team: u64, cost: u64, sel: &str, form: &str, points: i64) -> Element {
    Element {
        id,
        web_name: format!("P{}", id),
        element_type: pos,
        team,
        now_cost: cost,
        selected_by_percent: sel.to_string(),
        form: form.to_string(),
        total_points: points,
        news: String::new(),
    }
}

fn ids(v: &[Element]) -> Vec<u64> {
    v.iter().map(|e| e.id).collect()
}

#[test]
fn sort_by_points_is_stable() {
    let players = vec![
        el(1, 1, 1, 50, "1.0", "1.0", 10),
        el(2, 2, 1, 50, "1.0", "1.0", 20),
        el(3, 3, 1, 50, "1.0", "1.0", 10),
        el(4, 4, 1, 50, "1.0", "1.0", 20),
        el(5, 4, 1, 50, "1.0", "1.0", 10),
    ];
    let r = select_players(players, None, None, SortBy::Points, 20);
    assert_eq!(ids(&r), vec![2, 4, 1, 3, 5]);
}

#[test]
fn sort_by_cost_descending_and_limit_after_sort() {
    let players = vec![
        el(1, 1, 1, 45, "1.0", "1.0", 0),
        el(2, 1, 1, 130, "1.0", "1.0", 0),
        el(3, 1, 1, 80, "1.0", "1.0", 0),
    ];
    let r = select_players(players, None, None, SortBy::Cost, 2);
    assert_eq!(ids(&r), vec![2, 3]);
}

#[test]
fn malformed_decimals_sort_as_zero() {
    let make = || {
        vec![
            el(1, 1, 1, 0, "", "abc", 0),
            el(2, 1, 1, 0, "5.5", "-0.5", 0),
            el(3, 1, 1, 0, "-1.0", "0.0", 0),
            el(4, 1, 1, 0, "n/a", "2", 0),
            el(5, 1, 1, 0, "0.0", "", 0),
        ]
    };
    let by_selected = select_players(make(), None, None, SortBy::SelectedBy, 20);
    assert_eq!(ids(&by_selected), vec![2, 1, 4, 5, 3]);
    let by_form = select_players(make(), None, None, SortBy::Form, 20);
    assert_eq!(ids(&by_form), vec![4, 1, 3, 5, 2]);
}

#[test]
fn position_filter_keeps_only_that_position() {
    let players = vec![
        el(1, 1, 1, 0, "0", "0", 5),
        el(2, 2, 1, 0, "0", "0", 6),
        el(3, 2, 2, 0, "0", "0", 7),
        el(4, 4, 2, 0, "0", "0", 8),
    ];
    let r = select_players(players, Some(Position::Defender), None, SortBy::Points, 20);
    assert_eq!(ids(&r), vec![3, 2]);
    assert!(r.iter().all(|e| e.element_type == 2));
}

#[test]
fn team_filter_distinguishes_none_from_empty() {
    let make = || {
        vec![el(1, 1, 1, 0, "0", "0", 5), el(2, 2, 2, 0, "0", "0", 6), el(3, 3, 3, 0, "0", "0", 7)]
    };
    let chosen = vec![1u64, 3];
    let r = select_players(make(), None, Some(&chosen), SortBy::Points, 20);
    assert_eq!(ids(&r), vec![3, 1]);
    let none: Vec<u64> = vec![];
    assert!(select_players(make(), None, Some(&none), SortBy::Points, 20).is_empty());
    assert_eq!(select_players(make(), None, None, SortBy::Points, 20).len(), 3);
    let e = el(9, 2, 3, 0, "0", "0", 0);
    assert!(player_passes(&e, Some(Position::Defender), Some(&chosen)));
    assert!(!player_passes(&e, Some(Position::Forward), Some(&chosen)));
}

fn less(a: &str, b: &str) -> bool {
    key_less(&decimal_key_of(a), &decimal_key_of(b))
}

#[test]
fn decimal_keys_compare_by_value() {
    assert!(less("1", "1234567890"));
    assert!(!less("1234567890", "1"));
    assert!(less("0", "0.0000000001"));
    assert!(less("0.0000000001", "0.000000001"));
    assert!(less("9.99", "10"));
    assert!(less("007.5", "8"));
    assert!(less("-1.5", "-1.49"));
    assert!(less("-12345678901234567890.5", "-12345678901234567890.25"));
    assert!(less("12345678901234567890", "12345678901234567890.0000000000001"));
    assert!(!less("12.30", "12.3"));
    assert!(!less("12.3", "12.30"));
    assert!(!less("-0", "0"));
    assert!(!less("0", "-0.0"));
    assert!(less(".5", "0.6"));
    assert!(!less("7.", "7"));
    assert!(!less("+2", "2"));
}

#[test]
fn malformed_texts_have_key_zero() {
    for text in ["", ".", "-", "+", "1.2.3", "abc", "1e3", "NaN", "inf", " 1", "1,5"] {
        assert!(!less(text, "0.0"), "{}", text);
        assert!(!less("0.0", text), "{}", text);
        assert!(less(text, "0.1"), "{}", text);
    }
}

#[test]
fn decimal_key_parts() {
    let k = decimal_key_of("+12.30");
    assert!(!k.negative);
    assert_eq!(k.whole, vec!['1', '2']);
    assert_eq!(k.frac, vec!['3', '0']);
    let k = decimal_key_of("-.5");
    assert!(k.negative);
    assert!(k.whole.is_empty());
    assert_eq!(k.frac, vec!['5']);
    let w = whole_key(-120);
    assert!(w.negative);
    assert_eq!(w.whole, vec!['1', '2', '0']);
    assert!(key_less(&w, &whole_key(3)));
    assert!(key_less(&whole_key(i128::MIN), &whole_key(i128::MAX)));
}

#[test]
fn long_decimals_sort_by_value() {
    let players = vec![
        el(1, 1, 1, 0, "0", "1", 0),
        el(2, 1, 1, 0, "0", "1234567890", 0),
        el(3, 1, 1, 0, "0", "0.0000000001", 0),
        el(4, 1, 1, 0, "0", "", 0),
        el(5, 1, 1, 0, "0", "1.00000000000000000001", 0),
    ];
    let r = select_players(players, None, None, SortBy::Form, 20);
    assert_eq!(ids(&r), vec![2, 5, 1, 3, 4]);
}
