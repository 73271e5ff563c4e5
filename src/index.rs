//! Lookup tables built from the season snapshot, and the team-name search.
use std::collections::HashMap;
use vstd::prelude::*;
use vstd::string::*;
use crate::models::{Element, Team};

verus! {

broadcast use vstd::std_specs::hash::group_hash_axioms;

/// Team id to team name; of two teams with one id, the later one wins.
pub open spec fn team_name_map(teams: Seq<Team>) -> Map<u64, String>
    decreases teams.len(),
{
    if teams.len() == 0 {
        Map::empty()
    } else {
        team_name_map(teams.drop_last()).insert(teams.last().id, teams.last().name)
    }
}

/// Player id to display name; of two players with one id, the later one wins.
pub open spec fn player_name_map(elements: Seq<Element>) -> Map<u64, String>
    decreases elements.len(),
{
    if elements.len() == 0 {
        Map::empty()
    } else {
        player_name_map(elements.drop_last()).insert(
            elements.last().id,
            elements.last().web_name,
        )
    }
}

/// The text shown for a name that cannot be found.
pub open spec fn unknown_name() -> Seq<char> {
    seq!['U', 'n', 'k', 'n', 'o', 'w', 'n']
}

/// The name that `m` holds for `id`, or the placeholder.
pub open spec fn name_or_unknown(m: Map<u64, String>, id: u64) -> Seq<char> {
    if m.contains_key(id) {
        m[id]@
    } else {
        unknown_name()
    }
}

pub fn create_team_map(teams: &[Team]) -> (m: HashMap<u64, String>)
    ensures
        m@ == team_name_map(teams@),
{
    let mut m: HashMap<u64, String> = HashMap::new();
    let mut i: usize = 0;
    while i < teams.len()
        invariant
            i <= teams@.len(),
            m@ == team_name_map(teams@.subrange(0, i as int)),
        decreases teams@.len() - i,
    {
        m.insert(teams[i].id, teams[i].name.clone());
        proof {
            assert(teams@.subrange(0, i + 1).drop_last() =~= teams@.subrange(0, i as int));
        }
        i = i + 1;
    }
    assert(teams@.subrange(0, teams@.len() as int) =~= teams@);
    m
}

pub fn create_player_map(elements: &[Element]) -> (m: HashMap<u64, String>)
    ensures
        m@ == player_name_map(elements@),
{
    let mut m: HashMap<u64, String> = HashMap::new();
    let mut i: usize = 0;
    while i < elements.len()
        invariant
            i <= elements@.len(),
            m@ == player_name_map(elements@.subrange(0, i as int)),
        decreases elements@.len() - i,
    {
        m.insert(elements[i].id, elements[i].web_name.clone());
        proof {
            assert(elements@.subrange(0, i + 1).drop_last() =~= elements@.subrange(0, i as int));
        }
        i = i + 1;
    }
    assert(elements@.subrange(0, elements@.len() as int) =~= elements@);
    m
}

/// The name stored for `id`, or "Unknown".
pub fn lookup_name(m: &HashMap<u64, String>, id: u64) -> (r: String)
    ensures
        r@ == name_or_unknown(m@, id),
{
    match m.get(&id) {
        Some(s) => s.clone(),
        None => {
            proof {
                reveal_strlit("Unknown");
            }
            String::from_str("Unknown")
        },
    }
}

/// The lower-case form of a text.
pub uninterp spec fn lower_of(s: Seq<char>) -> Seq<char>;

/// Relies on `str::to_lowercase`: its result depends on the characters of
/// the input alone, and as each character maps to one or more characters,
/// the result is empty exactly when the input is.
#[verifier::external_body]
fn lowercase(s: &str) -> (r: String)
    ensures
        r@ == lower_of(s@),
        s@.len() == 0 <==> r@.len() == 0,
{
    s.to_lowercase()
}

/// `needle` stands in `hay` from position `i` on.
pub open spec fn occurs_at(hay: Seq<char>, needle: Seq<char>, i: int) -> bool {
    0 <= i && i + needle.len() <= hay.len() && hay.subrange(i, i + needle.len()) == needle
}

/// `needle` stands somewhere in `hay`.
pub open spec fn contains_text(hay: Seq<char>, needle: Seq<char>) -> bool {
    exists|i: int| occurs_at(hay, needle, i)
}

/// A lower-case query matches a team whose lower-case name and short code are
/// given when it is not empty and occurs in either of them.
pub open spec fn folded_query_matches(query: Seq<char>, name: Seq<char>, short: Seq<char>) -> bool {
    query.len() > 0 && (contains_text(name, query) || contains_text(short, query))
}

/// The search result for a lower-case query: the ids of the matching teams,
/// in their order.
pub open spec fn matching_team_ids(teams: Seq<Team>, query: Seq<char>) -> Seq<u64>
    decreases teams.len(),
{
    if teams.len() == 0 {
        Seq::empty()
    } else {
        let prev = matching_team_ids(teams.drop_last(), query);
        let t = teams.last();
        if folded_query_matches(query, lower_of(t.name@), lower_of(t.short_name@)) {
            prev.push(t.id)
        } else {
            prev
        }
    }
}

proof fn lemma_empty_query_matches_none(teams: Seq<Team>, query: Seq<char>)
    requires
        query.len() == 0,
    ensures
        matching_team_ids(teams, query).len() == 0,
    decreases teams.len(),
{
    if teams.len() > 0 {
        lemma_empty_query_matches_none(teams.drop_last(), query);
    }
}

/// Whether `needle` occurs in `hay`.
pub fn contains_chars(hay: &str, needle: &str) -> (r: bool)
    ensures
        r == contains_text(hay@, needle@),
{
    let h = hay.unicode_len();
    let n = needle.unicode_len();
    if n > h {
        assert forall|i: int| !occurs_at(hay@, needle@, i) by {}
        return false;
    }
    let mut i: usize = 0;
    while i <= h - n
        invariant
            h == hay@.len(),
            n == needle@.len(),
            n <= h,
            forall|k: int| 0 <= k < i ==> !occurs_at(hay@, needle@, k),
        decreases h - n + 1 - i,
    {
        let mut j: usize = 0;
        let mut same = true;
        while j < n && same
            invariant
                h == hay@.len(),
                n == needle@.len(),
                i + n <= h,
                j <= n,
                same ==> forall|m: int| 0 <= m < j ==> hay@[i + m] == needle@[m],
                !same ==> exists|m: int| 0 <= m < n && hay@[i + m] != needle@[m],
            decreases n - j + (if same { 1int } else { 0int }),
        {
            if hay.get_char(i + j) != needle.get_char(j) {
                same = false;
            } else {
                j = j + 1;
            }
        }
        if same {
            assert(hay@.subrange(i as int, i + n) =~= needle@);
            assert(occurs_at(hay@, needle@, i as int));
            return true;
        }
        proof {
            let m = choose|m: int| 0 <= m < n && hay@[i + m] != needle@[m];
            assert(hay@.subrange(i as int, i + n)[m] != needle@[m]);
        }
        i = i + 1;
    }
    assert forall|k: int| !occurs_at(hay@, needle@, k) by {
        if 0 <= k && k + n <= h {
            assert(k < i);
        }
    }
    false
}

/// Whether a lower-case query matches a team with the given lower-case name
/// and short code.
pub fn team_matches_folded(query: &str, name: &str, short: &str) -> (r: bool)
    ensures
        r == folded_query_matches(query@, name@, short@),
{
    if query.unicode_len() == 0 {
        return false;
    }
    contains_chars(name, query) || contains_chars(short, query)
}

/// The ids of the teams whose name or short code contains `name`, compared
/// without regard to case, in the order of `teams`. An empty query matches
/// no team.
pub fn find_team_ids_by_name(teams: &[Team], name: &str) -> (r: Vec<u64>)
    ensures
        r@ == matching_team_ids(teams@, lower_of(name@)),
        name@.len() == 0 ==> r@.len() == 0,
{
    let query = lowercase(name);
    proof {
        if name@.len() == 0 {
            lemma_empty_query_matches_none(teams@, query@);
        }
    }
    let mut ids: Vec<u64> = Vec::new();
    let mut i: usize = 0;
    while i < teams.len()
        invariant
            i <= teams@.len(),
            query@ == lower_of(name@),
            ids@ == matching_team_ids(teams@.subrange(0, i as int), query@),
        decreases teams@.len() - i,
    {
        let team_name = lowercase(teams[i].name.as_str());
        let team_short = lowercase(teams[i].short_name.as_str());
        if team_matches_folded(query.as_str(), team_name.as_str(), team_short.as_str()) {
            ids.push(teams[i].id);
        }
        proof {
            assert(teams@.subrange(0, i + 1).drop_last() =~= teams@.subrange(0, i as int));
        }
        i = i + 1;
    }
    assert(teams@.subrange(0, teams@.len() as int) =~= teams@);
    ids
}

/// The team search, compared in lower case: a team's id is found exactly
/// when some team with that id has the non-empty query in its name or in its
/// short code.
pub proof fn lemma_team_search(teams: Seq<Team>, query: Seq<char>)
    ensures
        forall|id: u64|
            matching_team_ids(teams, query).contains(id) <==> exists|i: int|
                0 <= i < teams.len() && (#[trigger] teams[i]).id == id && folded_query_matches(
                    query,
                    lower_of(teams[i].name@),
                    lower_of(teams[i].short_name@),
                ),
    decreases teams.len(),
{
    if teams.len() > 0 {
        let init = teams.drop_last();
        lemma_team_search(init, query);
        let prev = matching_team_ids(init, query);
        let t = teams.last();
        let r = matching_team_ids(teams, query);
        assert forall|id: u64| r.contains(id) <==> exists|i: int|
            0 <= i < teams.len() && (#[trigger] teams[i]).id == id && folded_query_matches(
                query,
                lower_of(teams[i].name@),
                lower_of(teams[i].short_name@),
            ) by {
            if r.contains(id) {
                let j = choose|j: int| 0 <= j < r.len() && r[j] == id;
                if j < prev.len() {
                    assert(prev[j] == r[j]);
                    assert(prev.contains(id));
                    let i = choose|i: int|
                        0 <= i < init.len() && (#[trigger] init[i]).id == id
                            && folded_query_matches(
                            query,
                            lower_of(init[i].name@),
                            lower_of(init[i].short_name@),
                        );
                    assert(teams[i] == init[i]);
                } else {
                    assert(teams[teams.len() - 1] == t);
                }
            }
            if exists|i: int|
                0 <= i < teams.len() && (#[trigger] teams[i]).id == id && folded_query_matches(
                    query,
                    lower_of(teams[i].name@),
                    lower_of(teams[i].short_name@),
                ) {
                let i = choose|i: int|
                    0 <= i < teams.len() && (#[trigger] teams[i]).id == id && folded_query_matches(
                        query,
                        lower_of(teams[i].name@),
                        lower_of(teams[i].short_name@),
                    );
                if i < init.len() {
                    assert(init[i] == teams[i]);
                    assert(prev.contains(id));
                    let j = choose|j: int| 0 <= j < prev.len() && prev[j] == id;
                    if folded_query_matches(query, lower_of(t.name@), lower_of(t.short_name@)) {
                        assert(r[j] == prev[j]);
                    }
                } else {
                    assert(r[r.len() - 1] == id);
                }
            }
        }
    }
}

} // verus!
