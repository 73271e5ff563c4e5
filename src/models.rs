use vstd::prelude::*;

verus! {

/// The key by which the player table is ordered (always descending).
#[derive(Clone, Copy, Debug, PartialEq, Eq, Structural)]
pub enum SortBy {
    Cost,
    SelectedBy,
    Form,
    Points,
}

impl Default for SortBy {
    /// Players are ordered by points unless another key is asked for.
    fn default() -> (r: SortBy)
        ensures
            r == SortBy::Points,
    {
        SortBy::Points
    }
}

/// The four playing positions, coded 1 to 4 in the season data.
#[derive(Clone, Copy, Debug, PartialEq, Eq, Structural)]
pub enum Position {
    Goalkeeper,
    Defender,
    Midfielder,
    Forward,
}

/// The numeric position code of a position.
pub open spec fn position_code(p: Position) -> u8 {
    match p {
        Position::Goalkeeper => 1,
        Position::Defender => 2,
        Position::Midfielder => 3,
        Position::Forward => 4,
    }
}

/// The three-letter label of a position.
pub open spec fn position_label(p: Position) -> Seq<char> {
    match p {
        Position::Goalkeeper => seq!['G', 'K', 'P'],
        Position::Defender => seq!['D', 'E', 'F'],
        Position::Midfielder => seq!['M', 'I', 'D'],
        Position::Forward => seq!['F', 'W', 'D'],
    }
}

impl Position {
    pub fn element_type_id(&self) -> (r: u8)
        ensures
            r == position_code(*self),
    {
        match self {
            Position::Goalkeeper => 1,
            Position::Defender => 2,
            Position::Midfielder => 3,
            Position::Forward => 4,
        }
    }

    pub fn display_name(&self) -> (r: &str)
        ensures
            r@ == position_label(*self),
    {
        proof {
            reveal_strlit("GKP");
            reveal_strlit("DEF");
            reveal_strlit("MID");
            reveal_strlit("FWD");
        }
        match self {
            Position::Goalkeeper => "GKP",
            Position::Defender => "DEF",
            Position::Midfielder => "MID",
            Position::Forward => "FWD",
        }
    }

    pub fn from_element_type_id(id: u64) -> (r: Option<Position>)
        ensures
            r matches Some(p) ==> position_code(p) == id,
            r is None <==> !(1 <= id <= 4),
    {
        match id {
            1 => Some(Position::Goalkeeper),
            2 => Some(Position::Defender),
            3 => Some(Position::Midfielder),
            4 => Some(Position::Forward),
            _ => None,
        }
    }
}

/// The season's top scorer for one gameweek.
#[derive(Debug)]
pub struct DreamTeamTopPlayer {
    pub id: u64,
    pub points: i64,
}

/// One entry of a gameweek's best eleven.
#[derive(Debug)]
pub struct DreamTeamTeam {
    pub element: u64,
    pub points: i64,
    pub position: u64,
}

#[derive(Debug)]
pub struct DreamTeam {
    pub top_player: DreamTeamTopPlayer,
    pub team: Vec<DreamTeamTeam>,
}

/// A gameweek.
#[derive(Debug)]
pub struct Event {
    pub id: u64,
    pub name: String,
    pub is_current: bool,
    pub is_next: bool,
    pub deadline_time: String,
    pub finished: bool,
}

/// A player.
#[derive(Debug)]
pub struct Element {
    pub id: u64,
    pub web_name: String,
    pub element_type: u64,
    pub team: u64,
    pub now_cost: u64,
    pub selected_by_percent: String,
    pub form: String,
    pub total_points: i64,
    pub news: String,
}

#[derive(Debug)]
pub struct Team {
    pub id: u64,
    pub name: String,
    pub short_name: String,
    pub strength: u64,
}

/// A match; the gameweek and the kickoff time are absent for matches not yet
/// scheduled.
#[derive(Debug)]
pub struct Fixture {
    pub id: u64,
    pub event: Option<u64>,
    pub kickoff_time: Option<String>,
    pub team_h: u64,
    pub team_a: u64,
    pub finished: bool,
}

/// The season snapshot: gameweeks, players and teams.
#[derive(Debug)]
pub struct BootstrapStatic {
    pub events: Vec<Event>,
    pub elements: Vec<Element>,
    pub teams: Vec<Team>,
}

/// One past match of a player.
#[derive(Debug)]
pub struct PlayerHistory {
    pub element: u64,
    pub fixture: u64,
    pub opponent_team: u64,
    pub total_points: i64,
    pub was_home: bool,
    pub kickoff_time: String,
    pub team_h_score: u64,
    pub team_a_score: u64,
    pub round: u64,
    pub modified: bool,
    pub minutes: u64,
    pub goals_scored: u64,
    pub assists: u64,
    pub clean_sheets: u64,
    pub goals_conceded: u64,
    pub own_goals: u64,
    pub penalties_saved: u64,
    pub penalties_missed: u64,
    pub yellow_cards: u64,
    pub red_cards: u64,
    pub saves: u64,
    pub bonus: u64,
    pub bps: i64,
    pub influence: String,
    pub creativity: String,
    pub threat: String,
    pub ict_index: String,
    pub clearances_blocks_interceptions: u64,
    pub recoveries: u64,
    pub tackles: u64,
    pub defensive_contribution: u64,
    pub starts: u64,
    pub expected_goals: String,
    pub expected_assists: String,
    pub expected_goal_involvements: String,
    pub expected_goals_conceded: String,
    pub value: u64,
    pub transfers_balance: i64,
    pub selected: u64,
    pub transfers_in: u64,
    pub transfers_out: u64,
}

#[derive(Debug)]
pub struct PlayerSummary {
    pub history: Vec<PlayerHistory>,
}

/// The live scores of one gameweek.
#[derive(Debug)]
pub struct LiveData {
    pub elements: Vec<LiveElement>,
}

#[derive(Debug)]
pub struct LiveElement {
    pub id: u64,
    pub stats: LiveStats,
    pub explain: Vec<LiveExplain>,
}

/// A player's aggregate statistics for one gameweek.
#[derive(Debug)]
pub struct LiveStats {
    pub assists: u64,
    pub bonus: u64,
    pub bps: i64,
    pub clean_sheets: u64,
    pub clearances_blocks_interceptions: u64,
    pub creativity: String,
    pub defensive_contribution: u64,
    pub expected_assists: String,
    pub expected_goal_involvements: String,
    pub expected_goals: String,
    pub expected_goals_conceded: String,
    pub goals_conceded: u64,
    pub goals_scored: u64,
    pub ict_index: String,
    pub in_dreamteam: bool,
    pub influence: String,
    pub minutes: u64,
    pub own_goals: u64,
    pub penalties_missed: u64,
    pub penalties_saved: u64,
    pub recoveries: u64,
    pub red_cards: u64,
    pub saves: u64,
    pub starts: u64,
    pub tackles: u64,
    pub threat: String,
    pub total_points: i64,
    pub yellow_cards: u64,
}

/// How a player's points in one match were made up.
#[derive(Debug)]
pub struct LiveExplain {
    pub fixture: u64,
    pub stats: Vec<LiveExplainStat>,
}

/// The points that one scoring category contributed in one match.
#[derive(Debug)]
pub struct LiveExplainStat {
    pub identifier: String,
    pub points: i64,
    pub value: u64,
}

/// One player of a manager's lineup.
#[derive(Debug)]
pub struct Pick {
    pub element: u64,
    pub position: u32,
    pub multiplier: u8,
    pub is_captain: bool,
    pub is_vice_captain: bool,
    pub element_type: u8,
}

#[derive(Debug)]
pub struct ManagerPicks {
    pub picks: Vec<Pick>,
}

} // verus!
