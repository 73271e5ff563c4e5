//! The views that join a primary resource with the lookup tables: live
//! scores, a manager's picks, the dream team, the upcoming fixtures and the
//! gameweek list.
use std::collections::HashMap;
use vstd::prelude::*;
use crate::breakdown::{breakdown_of, compute_stats_points, explained_stats, StatsPoints};
use crate::index::{lookup_name, name_or_unknown};
use crate::models::{DreamTeamTeam, Event, Fixture, LiveElement, Pick};
use crate::players::first_n;
use crate::ranking::{
    int_ranked, items_of_rank, lemma_sort_by_rank_descending, lemma_sort_by_rank_permutes,
    lemma_sort_by_rank_stable, lemma_unranked_int_ranked, ranks_descending,
    sort_by_rank, sort_by_rank_desc, sort_by_text, sort_by_text_asc, strip_ranks, unranked,
};

verus! {

broadcast use vstd::std_specs::hash::group_hash_axioms;

/// One row of the live view.
#[derive(Debug)]
pub struct LiveRow {
    pub id: u64,
    pub name: String,
    pub total_points: i64,
    pub breakdown: StatsPoints,
}

/// Live elements ranked by their total points.
pub open spec fn live_ranked(s: Seq<LiveElement>) -> Seq<(int, LiveElement)> {
    s.map_values(|e: LiveElement| (e.stats.total_points as int, e))
}

/// The live elements shown: highest total first (ties in input order), cut to
/// `limit`.
pub open spec fn live_order(s: Seq<LiveElement>, limit: nat) -> Seq<LiveElement> {
    first_n(unranked(sort_by_rank(live_ranked(s))), limit)
}

/// `r` shows the live element `e`, named through `names`.
pub open spec fn live_row_shows(r: LiveRow, e: LiveElement, names: Map<u64, String>) -> bool {
    &&& r.id == e.id
    &&& r.name@ == name_or_unknown(names, e.id)
    &&& r.total_points == e.stats.total_points
    &&& r.breakdown == breakdown_of(explained_stats(e.explain@))
}

/// The live view: elements by total points, highest first, cut to `limit`,
/// each with its player's name and its scoring breakdown.
pub fn live_rows(elements: Vec<LiveElement>, player_names: &HashMap<u64, String>, limit: usize) -> (r:
    Vec<LiveRow>)
    ensures
        r@.len() == live_order(elements@, limit as nat).len(),
        forall|i: int|
            0 <= i < r@.len() ==> live_row_shows(
                #[trigger] r@[i],
                live_order(elements@, limit as nat)[i],
                player_names@,
            ),
{
    let ghost orig = elements@;
    let mut input = elements;
    let mut ranked: Vec<(i128, LiveElement)> = Vec::new();
    let mut done: usize = 0;
    let total: usize = input.len();
    while input.len() > 0
        invariant
            done + input@.len() == orig.len(),
            orig.len() == total,
            input@ == orig.subrange(done as int, orig.len() as int),
            int_ranked(ranked@) == live_ranked(orig.subrange(0, done as int)),
        decreases input.len(),
    {
        let e = input.remove(0);
        let rank = e.stats.total_points as i128;
        ranked.push((rank, e));
        proof {
            assert(live_ranked(orig.subrange(0, done + 1)) =~= live_ranked(
                orig.subrange(0, done as int),
            ).push((rank as int, e)));
            assert(int_ranked(ranked@) =~= live_ranked(orig.subrange(0, done + 1)));
        }
        done = done + 1;
        assert(input@ =~= orig.subrange(done as int, orig.len() as int));
    }
    assert(orig.subrange(0, orig.len() as int) =~= orig);
    let sorted = sort_by_rank_desc(ranked);
    proof {
        lemma_unranked_int_ranked(sorted@);
    }
    let mut shown = strip_ranks(sorted);
    if limit < shown.len() {
        shown.truncate(limit);
    }
    let ghost order = live_order(orig, limit as nat);
    assert(shown@ =~= order);
    let mut rows: Vec<LiveRow> = Vec::new();
    let mut i: usize = 0;
    while i < shown.len()
        invariant
            shown@ == order,
            i <= shown@.len(),
            rows@.len() == i,
            forall|k: int| 0 <= k < i ==> live_row_shows(#[trigger] rows@[k], order[k], player_names@),
        decreases shown@.len() - i,
    {
        let e = &shown[i];
        let row = LiveRow {
            id: e.id,
            name: lookup_name(player_names, e.id),
            total_points: e.stats.total_points,
            breakdown: compute_stats_points(&e.explain),
        };
        rows.push(row);
        i = i + 1;
    }
    rows
}

/// One row of the picks view.
#[derive(Debug)]
pub struct PickRow {
    pub element: u64,
    pub name: String,
    pub position: u32,
    pub is_captain: bool,
    pub is_vice_captain: bool,
    pub points: i64,
}

/// Player id to live total points; of two entries with one id, the later one
/// wins.
pub open spec fn live_points_map(s: Seq<LiveElement>) -> Map<u64, i64>
    decreases s.len(),
{
    if s.len() == 0 {
        Map::empty()
    } else {
        live_points_map(s.drop_last()).insert(s.last().id, s.last().stats.total_points)
    }
}

/// The live points that `m` holds for `id`, or zero for a player without an
/// entry.
pub open spec fn points_or_zero(m: Map<u64, i64>, id: u64) -> i64 {
    if m.contains_key(id) {
        m[id]
    } else {
        0
    }
}

/// `r` shows the pick `p`, named through `names`, with its live points from
/// `points`.
pub open spec fn pick_row_shows(
    r: PickRow,
    p: Pick,
    names: Map<u64, String>,
    points: Map<u64, i64>,
) -> bool {
    &&& r.element == p.element
    &&& r.name@ == name_or_unknown(names, p.element)
    &&& r.position == p.position
    &&& r.is_captain == p.is_captain
    &&& r.is_vice_captain == p.is_vice_captain
    &&& r.points == points_or_zero(points, p.element)
}

/// The live total points of each player in a live snapshot.
pub fn create_points_map(elements: &[LiveElement]) -> (m: HashMap<u64, i64>)
    ensures
        m@ == live_points_map(elements@),
{
    let mut m: HashMap<u64, i64> = HashMap::new();
    let mut i: usize = 0;
    while i < elements.len()
        invariant
            i <= elements@.len(),
            m@ == live_points_map(elements@.subrange(0, i as int)),
        decreases elements@.len() - i,
    {
        m.insert(elements[i].id, elements[i].stats.total_points);
        proof {
            assert(elements@.subrange(0, i + 1).drop_last() =~= elements@.subrange(0, i as int));
        }
        i = i + 1;
    }
    assert(elements@.subrange(0, elements@.len() as int) =~= elements@);
    m
}

/// The live points stored for `id`, or zero.
pub fn lookup_points(points: &HashMap<u64, i64>, id: u64) -> (r: i64)
    ensures
        r == points_or_zero(points@, id),
{
    match points.get(&id) {
        Some(p) => *p,
        None => 0,
    }
}

/// The picks view: each pick in order, with its player's name and live
/// points (zero for a player missing from the live snapshot).
pub fn pick_rows(picks: &[Pick], player_names: &HashMap<u64, String>, points: &HashMap<u64, i64>) -> (r:
    Vec<PickRow>)
    ensures
        r@.len() == picks@.len(),
        forall|i: int|
            0 <= i < r@.len() ==> pick_row_shows(
                #[trigger] r@[i],
                picks@[i],
                player_names@,
                points@,
            ),
{
    let mut rows: Vec<PickRow> = Vec::new();
    let mut i: usize = 0;
    while i < picks.len()
        invariant
            i <= picks@.len(),
            rows@.len() == i,
            forall|k: int|
                0 <= k < i ==> pick_row_shows(#[trigger] rows@[k], picks@[k], player_names@, points@),
        decreases picks@.len() - i,
    {
        let p = &picks[i];
        let row = PickRow {
            element: p.element,
            name: lookup_name(player_names, p.element),
            position: p.position,
            is_captain: p.is_captain,
            is_vice_captain: p.is_vice_captain,
            points: lookup_points(points, p.element),
        };
        rows.push(row);
        i = i + 1;
    }
    rows
}

/// A player that has no entry in the live snapshot shows zero points.
pub proof fn lemma_missing_player_scores_zero(live: Seq<LiveElement>, id: u64)
    requires
        forall|i: int| 0 <= i < live.len() ==> live[i].id != id,
    ensures
        points_or_zero(live_points_map(live), id) == 0,
    decreases live.len(),
{
    if live.len() > 0 {
        lemma_missing_player_scores_zero(live.drop_last(), id);
    }
}

/// One row of the dream-team view.
#[derive(Debug)]
pub struct DreamTeamRow {
    pub element: u64,
    pub name: String,
    pub points: i64,
}

/// Dream-team entries ranked by their points.
pub open spec fn dream_ranked(s: Seq<DreamTeamTeam>) -> Seq<(int, DreamTeamTeam)> {
    s.map_values(|t: DreamTeamTeam| (t.points as int, t))
}

/// The dream-team entries by points, highest first (ties in input order).
pub open spec fn dream_order(s: Seq<DreamTeamTeam>) -> Seq<DreamTeamTeam> {
    unranked(sort_by_rank(dream_ranked(s)))
}

/// `r` shows the entry `t`, named through `names`.
pub open spec fn dream_row_shows(r: DreamTeamRow, t: DreamTeamTeam, names: Map<u64, String>) -> bool {
    &&& r.element == t.element
    &&& r.name@ == name_or_unknown(names, t.element)
    &&& r.points == t.points
}

/// The dream-team view: the entries by points, highest first, each with its
/// player's name.
pub fn dream_team_rows(team: Vec<DreamTeamTeam>, player_names: &HashMap<u64, String>) -> (r: Vec<
    DreamTeamRow,
>)
    ensures
        r@.len() == team@.len(),
        forall|i: int|
            0 <= i < r@.len() ==> dream_row_shows(
                #[trigger] r@[i],
                dream_order(team@)[i],
                player_names@,
            ),
{
    let ghost orig = team@;
    let mut input = team;
    let mut ranked: Vec<(i128, DreamTeamTeam)> = Vec::new();
    let mut done: usize = 0;
    let total: usize = input.len();
    while input.len() > 0
        invariant
            done + input@.len() == orig.len(),
            orig.len() == total,
            input@ == orig.subrange(done as int, orig.len() as int),
            int_ranked(ranked@) == dream_ranked(orig.subrange(0, done as int)),
        decreases input.len(),
    {
        let t = input.remove(0);
        let rank = t.points as i128;
        ranked.push((rank, t));
        proof {
            assert(dream_ranked(orig.subrange(0, done + 1)) =~= dream_ranked(
                orig.subrange(0, done as int),
            ).push((rank as int, t)));
            assert(int_ranked(ranked@) =~= dream_ranked(orig.subrange(0, done + 1)));
        }
        done = done + 1;
        assert(input@ =~= orig.subrange(done as int, orig.len() as int));
    }
    assert(orig.subrange(0, orig.len() as int) =~= orig);
    proof {
        lemma_sort_by_rank_descending(dream_ranked(orig));
    }
    let sorted = sort_by_rank_desc(ranked);
    proof {
        lemma_unranked_int_ranked(sorted@);
    }
    let shown = strip_ranks(sorted);
    let ghost order = dream_order(orig);
    assert(shown@ =~= order);
    let mut rows: Vec<DreamTeamRow> = Vec::new();
    let mut i: usize = 0;
    while i < shown.len()
        invariant
            shown@ == order,
            order.len() == orig.len(),
            i <= shown@.len(),
            rows@.len() == i,
            forall|k: int| 0 <= k < i ==> dream_row_shows(#[trigger] rows@[k], order[k], player_names@),
        decreases shown@.len() - i,
    {
        let t = &shown[i];
        let row = DreamTeamRow {
            element: t.element,
            name: lookup_name(player_names, t.element),
            points: t.points,
        };
        rows.push(row);
        i = i + 1;
    }
    rows
}

/// The dream-team view lists its entries by points, highest first, whatever
/// the order in which they came: it holds the same entries, each as often,
/// and entries with equal points keep their input order.
pub proof fn lemma_dream_team_descending(team: Seq<DreamTeamTeam>)
    ensures
        dream_order(team).len() == team.len(),
        sort_by_rank(dream_ranked(team)).to_multiset() == dream_ranked(team).to_multiset(),
        forall|k: int|
            #![trigger items_of_rank(sort_by_rank(dream_ranked(team)), k)]
            items_of_rank(sort_by_rank(dream_ranked(team)), k) == items_of_rank(
                dream_ranked(team),
                k,
            ),
        forall|i: int, j: int|
            0 <= i < j < dream_order(team).len() ==> dream_order(team)[j].points <= dream_order(
                team,
            )[i].points,
{
    let ranked = dream_ranked(team);
    lemma_sort_by_rank_descending(ranked);
    lemma_sort_by_rank_permutes(ranked);
    assert forall|k: int|
        #![trigger items_of_rank(sort_by_rank(ranked), k)]
        items_of_rank(sort_by_rank(ranked), k) == items_of_rank(ranked, k) by {
        lemma_sort_by_rank_stable(ranked, k);
    }
    let sorted = sort_by_rank(ranked);
    lemma_dream_ranks_match(ranked, team);
    assert forall|i: int, j: int| 0 <= i < j < dream_order(team).len() implies dream_order(
        team,
    )[j].points <= dream_order(team)[i].points by {
        assert(ranks_descending(sorted));
        assert(sorted[j].0 <= sorted[i].0);
        assert(dream_order(team)[i] == sorted[i].1);
        assert(dream_order(team)[j] == sorted[j].1);
        crate::ranking::lemma_sort_by_rank_members(ranked);
        assert(ranked.contains(sorted[i]));
        assert(ranked.contains(sorted[j]));
    }
}

proof fn lemma_dream_ranks_match(ranked: Seq<(int, DreamTeamTeam)>, team: Seq<DreamTeamTeam>)
    requires
        ranked == dream_ranked(team),
    ensures
        forall|k: int| 0 <= k < ranked.len() ==> (#[trigger] ranked[k]).0 == ranked[k].1.points,
{
}

/// One row of the fixtures view.
#[derive(Debug)]
pub struct FixtureRow {
    pub id: u64,
    pub kickoff_time: String,
    pub home: String,
    pub away: String,
}

/// The id of the first gameweek marked as next, if any.
pub open spec fn first_next_event(events: Seq<Event>) -> Option<u64>
    decreases events.len(),
{
    if events.len() == 0 {
        None
    } else if events[0].is_next {
        Some(events[0].id)
    } else {
        first_next_event(events.drop_first())
    }
}

/// The id of the first gameweek marked as next, if any.
pub fn next_event_id(events: &[Event]) -> (r: Option<u64>)
    ensures
        r == first_next_event(events@),
{
    let mut i: usize = 0;
    assert(events@.subrange(0, events@.len() as int) =~= events@);
    while i < events.len()
        invariant
            i <= events@.len(),
            first_next_event(events@) == first_next_event(events@.subrange(i as int, events@.len() as int)),
        decreases events@.len() - i,
    {
        proof {
            let rest = events@.subrange(i as int, events@.len() as int);
            assert(rest.drop_first() =~= events@.subrange(i + 1, events@.len() as int));
            assert(rest[0] == events@[i as int]);
        }
        if events[i].is_next {
            return Some(events[i].id);
        }
        i = i + 1;
    }
    None
}

/// A fixture of gameweek `next` that is not finished and has a kickoff time.
pub open spec fn is_upcoming(f: Fixture, next: u64) -> bool {
    f.event == Some(next) && !f.finished && f.kickoff_time is Some
}

/// The upcoming fixtures of gameweek `next`, keyed by kickoff time, with id,
/// home team and away team, in input order.
pub open spec fn upcoming_keyed(s: Seq<Fixture>, next: u64) -> Seq<(String, (u64, u64, u64))>
    decreases s.len(),
{
    if s.len() == 0 {
        Seq::empty()
    } else {
        let prev = upcoming_keyed(s.drop_last(), next);
        let f = s.last();
        if is_upcoming(f, next) {
            prev.push((f.kickoff_time->Some_0, (f.id, f.team_h, f.team_a)))
        } else {
            prev
        }
    }
}

/// The fixtures shown: those of the next gameweek that are not finished, by
/// kickoff time (ties in input order); none when no gameweek is next.
pub open spec fn fixture_order(events: Seq<Event>, fixtures: Seq<Fixture>) -> Seq<
    (String, (u64, u64, u64)),
> {
    match first_next_event(events) {
        Some(next) => sort_by_text(upcoming_keyed(fixtures, next)),
        None => Seq::empty(),
    }
}

/// `r` shows the keyed fixture `f`, with team names through `names`.
pub open spec fn fixture_row_shows(
    r: FixtureRow,
    f: (String, (u64, u64, u64)),
    names: Map<u64, String>,
) -> bool {
    &&& r.id == f.1.0
    &&& r.kickoff_time@ == f.0@
    &&& r.home@ == name_or_unknown(names, f.1.1)
    &&& r.away@ == name_or_unknown(names, f.1.2)
}

/// The fixtures view: the unfinished fixtures of the next gameweek, by
/// kickoff time, with home and away team names.
pub fn fixture_rows(events: &[Event], fixtures: Vec<Fixture>, team_names: &HashMap<u64, String>) -> (r:
    Vec<FixtureRow>)
    ensures
        r@.len() == fixture_order(events@, fixtures@).len(),
        forall|i: int|
            0 <= i < r@.len() ==> fixture_row_shows(
                #[trigger] r@[i],
                fixture_order(events@, fixtures@)[i],
                team_names@,
            ),
{
    let next = match next_event_id(events) {
        Some(n) => n,
        None => {
            return Vec::new();
        },
    };
    let ghost orig = fixtures@;
    let mut input = fixtures;
    let mut keyed: Vec<(String, (u64, u64, u64))> = Vec::new();
    let mut done: usize = 0;
    let total: usize = input.len();
    while input.len() > 0
        invariant
            done + input@.len() == orig.len(),
            orig.len() == total,
            input@ == orig.subrange(done as int, orig.len() as int),
            keyed@ == upcoming_keyed(orig.subrange(0, done as int), next),
        decreases input.len(),
    {
        let f = input.remove(0);
        proof {
            let sub = orig.subrange(0, done + 1);
            assert(sub.drop_last() =~= orig.subrange(0, done as int));
            assert(sub.last() == f);
        }
        let Fixture { id, event, kickoff_time, team_h, team_a, finished } = f;
        if event == Some(next) && !finished {
            match kickoff_time {
                Some(k) => {
                    keyed.push((k, (id, team_h, team_a)));
                },
                None => {},
            }
        }
        done = done + 1;
        assert(input@ =~= orig.subrange(done as int, orig.len() as int));
    }
    assert(orig.subrange(0, orig.len() as int) =~= orig);
    let ghost order = fixture_order(events@, orig);
    let mut sorted = sort_by_text_asc(keyed);
    let mut rows: Vec<FixtureRow> = Vec::new();
    let mut taken: usize = 0;
    let count: usize = sorted.len();
    while sorted.len() > 0
        invariant
            taken + sorted@.len() == order.len(),
            order.len() == count,
            sorted@ == order.subrange(taken as int, order.len() as int),
            rows@.len() == taken,
            forall|k: int| 0 <= k < taken ==> fixture_row_shows(#[trigger] rows@[k], order[k], team_names@),
        decreases sorted.len(),
    {
        let (kickoff, (id, home, away)) = sorted.remove(0);
        let row = FixtureRow {
            id,
            kickoff_time: kickoff,
            home: lookup_name(team_names, home),
            away: lookup_name(team_names, away),
        };
        rows.push(row);
        taken = taken + 1;
        assert(sorted@ =~= order.subrange(taken as int, order.len() as int));
    }
    rows
}

/// The status word of a gameweek: the first of current, next and finished
/// that holds, else upcoming.
pub open spec fn status_text(e: Event) -> Seq<char> {
    if e.is_current {
        "Current"@
    } else if e.is_next {
        "Next"@
    } else if e.finished {
        "Finished"@
    } else {
        "Upcoming"@
    }
}

/// The status word of a gameweek.
pub fn event_status(e: &Event) -> (r: &'static str)
    ensures
        r@ == status_text(*e),
{
    if e.is_current {
        "Current"
    } else if e.is_next {
        "Next"
    } else if e.finished {
        "Finished"
    } else {
        "Upcoming"
    }
}

} // verus!
