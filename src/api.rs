//! The endpoints of the remote service: one fixed address template per
//! resource. Fetching and decoding are left to the caller.
use vstd::prelude::*;
use vstd::string::*;
use crate::render::{int_text, int_to_text};

verus! {

/// The remote service.
pub struct FplClient;

/// The address that every endpoint starts with.
pub open spec fn api_base() -> Seq<char> {
    "https://fantasy.premierleague.com/api/"@
}

impl FplClient {
    /// The season snapshot: gameweeks, players and teams.
    pub fn bootstrap_static_url() -> (r: String)
        ensures
            r@ == api_base() + "bootstrap-static/"@,
    {
        let mut url = String::from_str("https://fantasy.premierleague.com/api/");
        url.append("bootstrap-static/");
        url
    }

    /// The list of all fixtures.
    pub fn fixtures_url() -> (r: String)
        ensures
            r@ == api_base() + "fixtures/"@,
    {
        let mut url = String::from_str("https://fantasy.premierleague.com/api/");
        url.append("fixtures/");
        url
    }

    /// The live scores of a gameweek.
    pub fn live_url(event_id: u32) -> (r: String)
        ensures
            r@ == api_base() + "event/"@ + int_text(event_id as int) + "/live/"@,
    {
        let mut url = String::from_str("https://fantasy.premierleague.com/api/");
        url.append("event/");
        url.append(int_to_text(event_id as i128).as_str());
        url.append("/live/");
        url
    }

    /// The dream team of a gameweek.
    pub fn dream_team_url(event_id: u32) -> (r: String)
        ensures
            r@ == api_base() + "dream-team/"@ + int_text(event_id as int) + "/"@,
    {
        let mut url = String::from_str("https://fantasy.premierleague.com/api/");
        url.append("dream-team/");
        url.append(int_to_text(event_id as i128).as_str());
        url.append("/");
        url
    }

    /// A manager's picks for a gameweek.
    pub fn manager_picks_url(manager_id: u64, event_id: u32) -> (r: String)
        ensures
            r@ == api_base() + "entry/"@ + int_text(manager_id as int) + "/event/"@ + int_text(
                event_id as int,
            ) + "/picks/"@,
    {
        let mut url = String::from_str("https://fantasy.premierleague.com/api/");
        url.append("entry/");
        url.append(int_to_text(manager_id as i128).as_str());
        url.append("/event/");
        url.append(int_to_text(event_id as i128).as_str());
        url.append("/picks/");
        url
    }

    /// The match history of a player.
    pub fn player_summary_url(player_id: u64) -> (r: String)
        ensures
            r@ == api_base() + "element-summary/"@ + int_text(player_id as int) + "/"@,
    {
        let mut url = String::from_str("https://fantasy.premierleague.com/api/");
        url.append("element-summary/");
        url.append(int_to_text(player_id as i128).as_str());
        url.append("/");
        url
    }
}

} // verus!
