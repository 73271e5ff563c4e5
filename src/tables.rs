//! The tables that each command prints: a header line and one line per row.
use std::collections::HashMap;
use vstd::prelude::*;
use vstd::string::*;
use crate::breakdown::StatsPoints;
use crate::index::{lookup_name, name_or_unknown};
use crate::models::{position_label, Element, Event, PlayerHistory, Position, Team};
use crate::render::{
    cell_texts, cost_text, format_cost, int_text, int_to_text, render_table, table_line,
    width_values,
};
use crate::views::{event_status, status_text, DreamTeamRow, FixtureRow, LiveRow, PickRow};

verus! {

broadcast use vstd::std_specs::hash::group_hash_axioms;

/// The line count and the header line of a table.
pub open spec fn table_starts(lines: Seq<String>, n: nat, header: Seq<Seq<char>>, widths: Seq<nat>) -> bool {
    lines.len() == n + 1 && lines[0]@ == table_line(header, widths)
}

// ---- teams

pub open spec fn team_header() -> Seq<Seq<char>> {
    seq!["ID"@, "Name"@, "Short"@, "Strength"@]
}

pub open spec fn team_widths() -> Seq<nat> {
    seq![4nat, 20, 8, 8]
}

pub open spec fn team_cells(t: Team) -> Seq<Seq<char>> {
    seq![int_text(t.id as int), t.name@, t.short_name@, int_text(t.strength as int)]
}

/// The team table: id, name, short code and strength of each team.
pub fn team_table(teams: &[Team]) -> (r: Vec<String>)
    ensures
        table_starts(r@, teams@.len(), team_header(), team_widths()),
        forall|i: int|
            0 <= i < teams@.len() ==> (#[trigger] r@[i + 1])@ == table_line(
                team_cells(teams@[i]),
                team_widths(),
            ),
{
    let header = vec![
        String::from_str("ID"),
        String::from_str("Name"),
        String::from_str("Short"),
        String::from_str("Strength"),
    ];
    let widths: Vec<usize> = vec![4, 20, 8, 8];
    let mut rows: Vec<Vec<String>> = Vec::new();
    let mut i: usize = 0;
    while i < teams.len()
        invariant
            i <= teams@.len(),
            rows@.len() == i,
            forall|k: int|
                0 <= k < i ==> cell_texts((#[trigger] rows@[k])@) == team_cells(teams@[k])
                    && rows@[k]@.len() == 4,
        decreases teams@.len() - i,
    {
        let t = &teams[i];
        let cells = vec![
            int_to_text(t.id as i128),
            t.name.clone(),
            t.short_name.clone(),
            int_to_text(t.strength as i128),
        ];
        assert(cell_texts(cells@) =~= team_cells(teams@[i as int]));
        rows.push(cells);
        i = i + 1;
    }
    assert(cell_texts(header@) =~= team_header());
    assert(width_values(widths@) =~= team_widths());
    render_table(&header, &rows, &widths)
}

// ---- gameweeks

pub open spec fn gameweek_header() -> Seq<Seq<char>> {
    seq!["ID"@, "Name"@, "Status"@, "Deadline"@]
}

pub open spec fn gameweek_widths() -> Seq<nat> {
    seq![4nat, 16, 12, 20]
}

pub open spec fn gameweek_cells(e: Event) -> Seq<Seq<char>> {
    seq![int_text(e.id as int), e.name@, status_text(e), e.deadline_time@]
}

/// The gameweek table: id, name, status word and deadline of each gameweek.
pub fn gameweek_table(events: &[Event]) -> (r: Vec<String>)
    ensures
        table_starts(r@, events@.len(), gameweek_header(), gameweek_widths()),
        forall|i: int|
            0 <= i < events@.len() ==> (#[trigger] r@[i + 1])@ == table_line(
                gameweek_cells(events@[i]),
                gameweek_widths(),
            ),
{
    let header = vec![
        String::from_str("ID"),
        String::from_str("Name"),
        String::from_str("Status"),
        String::from_str("Deadline"),
    ];
    let widths: Vec<usize> = vec![4, 16, 12, 20];
    let mut rows: Vec<Vec<String>> = Vec::new();
    let mut i: usize = 0;
    while i < events.len()
        invariant
            i <= events@.len(),
            rows@.len() == i,
            forall|k: int|
                0 <= k < i ==> cell_texts((#[trigger] rows@[k])@) == gameweek_cells(events@[k])
                    && rows@[k]@.len() == 4,
        decreases events@.len() - i,
    {
        let e = &events[i];
        let cells = vec![
            int_to_text(e.id as i128),
            e.name.clone(),
            String::from_str(event_status(e)),
            e.deadline_time.clone(),
        ];
        assert(cell_texts(cells@) =~= gameweek_cells(events@[i as int]));
        rows.push(cells);
        i = i + 1;
    }
    assert(cell_texts(header@) =~= gameweek_header());
    assert(width_values(widths@) =~= gameweek_widths());
    render_table(&header, &rows, &widths)
}

// ---- players

/// The label of a position code, or "N/A" for a code of no position.
pub open spec fn position_text(code: u64) -> Seq<char> {
    if code == 1 {
        position_label(Position::Goalkeeper)
    } else if code == 2 {
        position_label(Position::Defender)
    } else if code == 3 {
        position_label(Position::Midfielder)
    } else if code == 4 {
        position_label(Position::Forward)
    } else {
        "N/A"@
    }
}

/// The label of a position code, or "N/A".
pub fn position_label_of(code: u64) -> (r: String)
    ensures
        r@ == position_text(code),
{
    match Position::from_element_type_id(code) {
        Some(p) => String::from_str(p.display_name()),
        None => String::from_str("N/A"),
    }
}

pub open spec fn player_header() -> Seq<Seq<char>> {
    seq!["ID"@, "Name"@, "Pos"@, "Team"@, "Cost"@, "Selected"@, "Form"@, "Points"@, "News"@]
}

pub open spec fn player_widths() -> Seq<nat> {
    seq![4nat, 20, 4, 16, 8, 8, 8, 8, 30]
}

pub open spec fn player_cells(e: Element, team_names: Map<u64, String>) -> Seq<Seq<char>> {
    seq![
        int_text(e.id as int),
        e.web_name@,
        position_text(e.element_type),
        name_or_unknown(team_names, e.team),
        cost_text(e.now_cost as nat),
        e.selected_by_percent@,
        e.form@,
        int_text(e.total_points as int),
        e.news@,
    ]
}

/// The player table: id, name, position, team name, cost, percent selected,
/// form, points and news of each player, in the given order.
pub fn player_table(players: &[Element], team_names: &HashMap<u64, String>) -> (r: Vec<String>)
    ensures
        table_starts(r@, players@.len(), player_header(), player_widths()),
        forall|i: int|
            0 <= i < players@.len() ==> (#[trigger] r@[i + 1])@ == table_line(
                player_cells(players@[i], team_names@),
                player_widths(),
            ),
{
    let header = vec![
        String::from_str("ID"),
        String::from_str("Name"),
        String::from_str("Pos"),
        String::from_str("Team"),
        String::from_str("Cost"),
        String::from_str("Selected"),
        String::from_str("Form"),
        String::from_str("Points"),
        String::from_str("News"),
    ];
    let widths: Vec<usize> = vec![4, 20, 4, 16, 8, 8, 8, 8, 30];
    let mut rows: Vec<Vec<String>> = Vec::new();
    let mut i: usize = 0;
    while i < players.len()
        invariant
            i <= players@.len(),
            rows@.len() == i,
            forall|k: int|
                0 <= k < i ==> cell_texts((#[trigger] rows@[k])@) == player_cells(
                    players@[k],
                    team_names@,
                ) && rows@[k]@.len() == 9,
        decreases players@.len() - i,
    {
        let e = &players[i];
        let cells = vec![
            int_to_text(e.id as i128),
            e.web_name.clone(),
            position_label_of(e.element_type),
            lookup_name(team_names, e.team),
            format_cost(e.now_cost),
            e.selected_by_percent.clone(),
            e.form.clone(),
            int_to_text(e.total_points as i128),
            e.news.clone(),
        ];
        assert(cell_texts(cells@) =~= player_cells(players@[i as int], team_names@));
        rows.push(cells);
        i = i + 1;
    }
    assert(cell_texts(header@) =~= player_header());
    assert(width_values(widths@) =~= player_widths());
    render_table(&header, &rows, &widths)
}

// ---- live scores

pub open spec fn live_header() -> Seq<Seq<char>> {
    seq![
        "ID"@,
        "Name"@,
        "Total"@,
        "Min"@,
        "G"@,
        "A"@,
        "CS"@,
        "GC"@,
        "S"@,
        "PS"@,
        "PM"@,
        "YC"@,
        "RC"@,
        "OG"@,
        "B"@,
    ]
}

pub open spec fn live_widths() -> Seq<nat> {
    seq![4nat, 20, 8, 4, 4, 4, 4, 4, 4, 4, 4, 4, 4, 4, 4]
}

pub open spec fn breakdown_cells(b: StatsPoints) -> Seq<Seq<char>> {
    seq![
        int_text(b.minutes as int),
        int_text(b.goals_scored as int),
        int_text(b.assists as int),
        int_text(b.clean_sheets as int),
        int_text(b.goals_conceded as int),
        int_text(b.saves as int),
        int_text(b.penalties_saved as int),
        int_text(b.penalties_missed as int),
        int_text(b.yellow_cards as int),
        int_text(b.red_cards as int),
        int_text(b.own_goals as int),
        int_text(b.bonus as int),
    ]
}

pub open spec fn live_cells(r: LiveRow) -> Seq<Seq<char>> {
    seq![int_text(r.id as int), r.name@, int_text(r.total_points as int)] + breakdown_cells(
        r.breakdown,
    )
}

/// The live table: id, name, total points and the twelve category points of
/// each row.
pub fn live_table(rows: &[LiveRow]) -> (r: Vec<String>)
    ensures
        table_starts(r@, rows@.len(), live_header(), live_widths()),
        forall|i: int|
            0 <= i < rows@.len() ==> (#[trigger] r@[i + 1])@ == table_line(
                live_cells(rows@[i]),
                live_widths(),
            ),
{
    let header = vec![
        String::from_str("ID"),
        String::from_str("Name"),
        String::from_str("Total"),
        String::from_str("Min"),
        String::from_str("G"),
        String::from_str("A"),
        String::from_str("CS"),
        String::from_str("GC"),
        String::from_str("S"),
        String::from_str("PS"),
        String::from_str("PM"),
        String::from_str("YC"),
        String::from_str("RC"),
        String::from_str("OG"),
        String::from_str("B"),
    ];
    let widths: Vec<usize> = vec![4, 20, 8, 4, 4, 4, 4, 4, 4, 4, 4, 4, 4, 4, 4];
    let mut lines: Vec<Vec<String>> = Vec::new();
    let mut i: usize = 0;
    while i < rows.len()
        invariant
            i <= rows@.len(),
            lines@.len() == i,
            forall|k: int|
                0 <= k < i ==> cell_texts((#[trigger] lines@[k])@) == live_cells(rows@[k])
                    && lines@[k]@.len() == 15,
        decreases rows@.len() - i,
    {
        let row = &rows[i];
        let b = &row.breakdown;
        let cells = vec![
            int_to_text(row.id as i128),
            row.name.clone(),
            int_to_text(row.total_points as i128),
            int_to_text(b.minutes as i128),
            int_to_text(b.goals_scored as i128),
            int_to_text(b.assists as i128),
            int_to_text(b.clean_sheets as i128),
            int_to_text(b.goals_conceded as i128),
            int_to_text(b.saves as i128),
            int_to_text(b.penalties_saved as i128),
            int_to_text(b.penalties_missed as i128),
            int_to_text(b.yellow_cards as i128),
            int_to_text(b.red_cards as i128),
            int_to_text(b.own_goals as i128),
            int_to_text(b.bonus as i128),
        ];
        assert(cell_texts(cells@) =~= live_cells(rows@[i as int]));
        lines.push(cells);
        i = i + 1;
    }
    assert(cell_texts(header@) =~= live_header());
    assert(width_values(widths@) =~= live_widths());
    render_table(&header, &lines, &widths)
}

// ---- picks

/// "Y" for a flag that is set, "N" otherwise.
pub open spec fn flag_text(b: bool) -> Seq<char> {
    if b {
        "Y"@
    } else {
        "N"@
    }
}

fn flag_of(b: bool) -> (r: String)
    ensures
        r@ == flag_text(b),
{
    if b {
        String::from_str("Y")
    } else {
        String::from_str("N")
    }
}

pub open spec fn pick_header() -> Seq<Seq<char>> {
    seq!["ID"@, "Name"@, "Pos"@, "C"@, "VC"@, "Pts"@]
}

pub open spec fn pick_widths() -> Seq<nat> {
    seq![4nat, 20, 4, 4, 4, 4]
}

pub open spec fn pick_cells(r: PickRow) -> Seq<Seq<char>> {
    seq![
        int_text(r.element as int),
        r.name@,
        int_text(r.position as int),
        flag_text(r.is_captain),
        flag_text(r.is_vice_captain),
        int_text(r.points as int),
    ]
}

/// The picks table: id, name, squad position, captain and vice-captain flags
/// and live points of each pick.
pub fn pick_table(rows: &[PickRow]) -> (r: Vec<String>)
    ensures
        table_starts(r@, rows@.len(), pick_header(), pick_widths()),
        forall|i: int|
            0 <= i < rows@.len() ==> (#[trigger] r@[i + 1])@ == table_line(
                pick_cells(rows@[i]),
                pick_widths(),
            ),
{
    let header = vec![
        String::from_str("ID"),
        String::from_str("Name"),
        String::from_str("Pos"),
        String::from_str("C"),
        String::from_str("VC"),
        String::from_str("Pts"),
    ];
    let widths: Vec<usize> = vec![4, 20, 4, 4, 4, 4];
    let mut lines: Vec<Vec<String>> = Vec::new();
    let mut i: usize = 0;
    while i < rows.len()
        invariant
            i <= rows@.len(),
            lines@.len() == i,
            forall|k: int|
                0 <= k < i ==> cell_texts((#[trigger] lines@[k])@) == pick_cells(rows@[k])
                    && lines@[k]@.len() == 6,
        decreases rows@.len() - i,
    {
        let row = &rows[i];
        let cells = vec![
            int_to_text(row.element as i128),
            row.name.clone(),
            int_to_text(row.position as i128),
            flag_of(row.is_captain),
            flag_of(row.is_vice_captain),
            int_to_text(row.points as i128),
        ];
        assert(cell_texts(cells@) =~= pick_cells(rows@[i as int]));
        lines.push(cells);
        i = i + 1;
    }
    assert(cell_texts(header@) =~= pick_header());
    assert(width_values(widths@) =~= pick_widths());
    render_table(&header, &lines, &widths)
}

// ---- player summary

pub open spec fn summary_header() -> Seq<Seq<char>> {
    seq!["GW"@, "Pts"@, "Min"@, "G"@, "A"@]
}

pub open spec fn summary_widths() -> Seq<nat> {
    seq![3nat, 3, 4, 2, 2]
}

pub open spec fn summary_cells(h: PlayerHistory) -> Seq<Seq<char>> {
    seq![
        int_text(h.round as int),
        int_text(h.total_points as int),
        int_text(h.minutes as int),
        int_text(h.goals_scored as int),
        int_text(h.assists as int),
    ]
}

/// The player summary table: gameweek, points, minutes, goals and assists of
/// each past match.
pub fn summary_table(history: &[PlayerHistory]) -> (r: Vec<String>)
    ensures
        table_starts(r@, history@.len(), summary_header(), summary_widths()),
        forall|i: int|
            0 <= i < history@.len() ==> (#[trigger] r@[i + 1])@ == table_line(
                summary_cells(history@[i]),
                summary_widths(),
            ),
{
    let header = vec![
        String::from_str("GW"),
        String::from_str("Pts"),
        String::from_str("Min"),
        String::from_str("G"),
        String::from_str("A"),
    ];
    let widths: Vec<usize> = vec![3, 3, 4, 2, 2];
    let mut lines: Vec<Vec<String>> = Vec::new();
    let mut i: usize = 0;
    while i < history.len()
        invariant
            i <= history@.len(),
            lines@.len() == i,
            forall|k: int|
                0 <= k < i ==> cell_texts((#[trigger] lines@[k])@) == summary_cells(history@[k])
                    && lines@[k]@.len() == 5,
        decreases history@.len() - i,
    {
        let h = &history[i];
        let cells = vec![
            int_to_text(h.round as i128),
            int_to_text(h.total_points as i128),
            int_to_text(h.minutes as i128),
            int_to_text(h.goals_scored as i128),
            int_to_text(h.assists as i128),
        ];
        assert(cell_texts(cells@) =~= summary_cells(history@[i as int]));
        lines.push(cells);
        i = i + 1;
    }
    assert(cell_texts(header@) =~= summary_header());
    assert(width_values(widths@) =~= summary_widths());
    render_table(&header, &lines, &widths)
}

// ---- dream team

pub open spec fn dream_header() -> Seq<Seq<char>> {
    seq!["ID"@, "Name"@, "Points"@]
}

pub open spec fn dream_widths() -> Seq<nat> {
    seq![4nat, 20, 12]
}

pub open spec fn dream_cells(r: DreamTeamRow) -> Seq<Seq<char>> {
    seq![int_text(r.element as int), r.name@, int_text(r.points as int)]
}

/// The dream-team table: id, name and points of each row.
pub fn dream_team_table(rows: &[DreamTeamRow]) -> (r: Vec<String>)
    ensures
        table_starts(r@, rows@.len(), dream_header(), dream_widths()),
        forall|i: int|
            0 <= i < rows@.len() ==> (#[trigger] r@[i + 1])@ == table_line(
                dream_cells(rows@[i]),
                dream_widths(),
            ),
{
    let header = vec![String::from_str("ID"), String::from_str("Name"), String::from_str("Points")];
    let widths: Vec<usize> = vec![4, 20, 12];
    let mut lines: Vec<Vec<String>> = Vec::new();
    let mut i: usize = 0;
    while i < rows.len()
        invariant
            i <= rows@.len(),
            lines@.len() == i,
            forall|k: int|
                0 <= k < i ==> cell_texts((#[trigger] lines@[k])@) == dream_cells(rows@[k])
                    && lines@[k]@.len() == 3,
        decreases rows@.len() - i,
    {
        let row = &rows[i];
        let cells = vec![
            int_to_text(row.element as i128),
            row.name.clone(),
            int_to_text(row.points as i128),
        ];
        assert(cell_texts(cells@) =~= dream_cells(rows@[i as int]));
        lines.push(cells);
        i = i + 1;
    }
    assert(cell_texts(header@) =~= dream_header());
    assert(width_values(widths@) =~= dream_widths());
    render_table(&header, &lines, &widths)
}

// ---- fixtures

/// A kickoff time as chrono shows it in UTC to the minute, or `None` when
/// chrono does not read the text as a date and time.
pub uninterp spec fn utc_minute_text(s: Seq<char>) -> Option<Seq<char>>;

/// Relies on chrono's `FromStr` for `DateTime<Utc>` (RFC 3339, relaxed) and
/// its `format("%Y-%m-%d %H:%M UTC")`: the text depends on the input alone.
#[verifier::external_body]
fn utc_minute_text_of(s: &str) -> (r: Option<String>)
    ensures
        match r {
            Some(t) => utc_minute_text(s@) == Some(t@),
            None => utc_minute_text(s@) is None,
        },
{
    match s.parse::<chrono::DateTime<chrono::Utc>>() {
        Ok(dt) => Some(dt.format("%Y-%m-%d %H:%M UTC").to_string()),
        Err(_) => None,
    }
}

/// The kickoff text shown: chrono's UTC form when chrono reads the time, the
/// text as given otherwise.
pub open spec fn kickoff_shown(raw: Seq<char>) -> Seq<char> {
    match utc_minute_text(raw) {
        Some(t) => t,
        None => raw,
    }
}

pub open spec fn fixture_header() -> Seq<Seq<char>> {
    seq!["ID"@, "Kickoff Time"@, "Home"@, "Away"@]
}

pub open spec fn fixture_widths() -> Seq<nat> {
    seq![4nat, 20, 20, 20]
}

pub open spec fn fixture_cells(r: FixtureRow, kickoff: Seq<char>) -> Seq<Seq<char>> {
    seq![int_text(r.id as int), kickoff, r.home@, r.away@]
}

/// The cells of a fixture row, with the kickoff shown as `kickoff`.
pub fn fixture_row_cells(row: &FixtureRow, kickoff: String) -> (r: Vec<String>)
    ensures
        cell_texts(r@) == fixture_cells(*row, kickoff@),
        r@.len() == 4,
{
    let cells = vec![int_to_text(row.id as i128), kickoff, row.home.clone(), row.away.clone()];
    assert(cell_texts(cells@) =~= fixture_cells(*row, cells@[1]@));
    cells
}

/// The fixtures table: id, kickoff time in UTC, home and away team of each
/// row.
pub fn fixture_table(rows: &[FixtureRow]) -> (r: Vec<String>)
    ensures
        table_starts(r@, rows@.len(), fixture_header(), fixture_widths()),
        forall|i: int|
            0 <= i < rows@.len() ==> (#[trigger] r@[i + 1])@ == table_line(
                fixture_cells(rows@[i], kickoff_shown(rows@[i].kickoff_time@)),
                fixture_widths(),
            ),
{
    let header = vec![
        String::from_str("ID"),
        String::from_str("Kickoff Time"),
        String::from_str("Home"),
        String::from_str("Away"),
    ];
    let widths: Vec<usize> = vec![4, 20, 20, 20];
    let mut lines: Vec<Vec<String>> = Vec::new();
    let mut i: usize = 0;
    while i < rows.len()
        invariant
            i <= rows@.len(),
            lines@.len() == i,
            forall|k: int|
                0 <= k < i ==> cell_texts((#[trigger] lines@[k])@) == fixture_cells(
                    rows@[k],
                    kickoff_shown(rows@[k].kickoff_time@),
                ) && lines@[k]@.len() == 4,
        decreases rows@.len() - i,
    {
        let row = &rows[i];
        let kickoff = match utc_minute_text_of(row.kickoff_time.as_str()) {
            Some(t) => t,
            None => row.kickoff_time.clone(),
        };
        let cells = fixture_row_cells(row, kickoff);
        lines.push(cells);
        i = i + 1;
    }
    assert(cell_texts(header@) =~= fixture_header());
    assert(width_values(widths@) =~= fixture_widths());
    render_table(&header, &lines, &widths)
}

} // verus!
