//! The player view: position and team filters, ordering by a chosen key, and
//! the display limit.
use vstd::prelude::*;
use crate::decimal::{
    decimal_at_scale, decimal_key_of, decimal_parts, decimal_places, digits_value, key_at,
    key_wf, pow10, whole_key, DecimalKey,
};
use crate::models::{position_code, Element, Position, SortBy};
use crate::ranking::{
    key_ranked, lemma_sort_by_rank_descending, lemma_sort_by_rank_members,
    lemma_sort_by_rank_permutes, lemma_unranked_key_ranked, sort_by_key_desc, sort_by_rank,
    strip_ranks, unranked,
};

verus! {

/// The number of rows shown when no limit is asked for.
pub const DEFAULT_LIMIT: usize = 20;

/// The value by which a player is ordered under a sort key, times
/// `10^scale`. Percent selected and form are read as decimals, and count as
/// zero when they are not decimals.
pub open spec fn player_key(e: Element, by: SortBy, scale: nat) -> int {
    match by {
        SortBy::Cost => e.now_cost * pow10(scale),
        SortBy::Points => e.total_points * pow10(scale),
        SortBy::SelectedBy => decimal_at_scale(e.selected_by_percent@, scale),
        SortBy::Form => decimal_at_scale(e.form@, scale),
    }
}

/// The number of decimal places of a player's value under a sort key.
pub open spec fn player_places(e: Element, by: SortBy) -> nat {
    match by {
        SortBy::SelectedBy => decimal_places(e.selected_by_percent@),
        SortBy::Form => decimal_places(e.form@),
        _ => 0,
    }
}

/// The most decimal places of the values of the players in `s`.
pub open spec fn max_places(s: Seq<Element>, by: SortBy) -> nat
    decreases s.len(),
{
    if s.len() == 0 {
        0
    } else {
        let prev = max_places(s.drop_last(), by);
        let here = player_places(s.last(), by);
        if here > prev {
            here
        } else {
            prev
        }
    }
}

/// A player passes the position filter, if one is given, and the team filter,
/// if one is given.
pub open spec fn passes_filters(
    e: Element,
    position: Option<Position>,
    team_ids: Option<Seq<u64>>,
) -> bool {
    &&& match position {
        Some(p) => e.element_type == position_code(p),
        None => true,
    }
    &&& match team_ids {
        Some(ids) => ids.contains(e.team),
        None => true,
    }
}

/// The players that pass the filters, in input order.
pub open spec fn candidates(
    s: Seq<Element>,
    position: Option<Position>,
    team_ids: Option<Seq<u64>>,
) -> Seq<Element>
    decreases s.len(),
{
    if s.len() == 0 {
        Seq::empty()
    } else {
        let prev = candidates(s.drop_last(), position, team_ids);
        if passes_filters(s.last(), position, team_ids) {
            prev.push(s.last())
        } else {
            prev
        }
    }
}

/// Players with their values at `scale` decimal places.
pub open spec fn keyed_players(s: Seq<Element>, by: SortBy, scale: nat) -> Seq<(int, Element)> {
    s.map_values(|e: Element| (player_key(e, by, scale), e))
}

/// The first `limit` items of `s`, or all of them when there are fewer.
pub open spec fn first_n<T>(s: Seq<T>, limit: nat) -> Seq<T> {
    if limit < s.len() {
        s.take(limit as int)
    } else {
        s
    }
}

/// The player view: the players that pass the filters, highest value first
/// (values compared at a common number of decimal places; ties in input
/// order), cut to `limit`.
pub open spec fn selected_players(
    s: Seq<Element>,
    position: Option<Position>,
    team_ids: Option<Seq<u64>>,
    by: SortBy,
    limit: nat,
) -> Seq<Element> {
    let c = candidates(s, position, team_ids);
    first_n(unranked(sort_by_rank(keyed_players(c, by, max_places(c, by)))), limit)
}

/// The ids, if any, as a sequence.
pub open spec fn ids_view(team_ids: Option<&Vec<u64>>) -> Option<Seq<u64>> {
    match team_ids {
        Some(v) => Some(v@),
        None => None,
    }
}

/// Whether `x` is among `ids`.
fn contains_id(ids: &Vec<u64>, x: u64) -> (r: bool)
    ensures
        r == ids@.contains(x),
{
    let mut i: usize = 0;
    while i < ids.len()
        invariant
            i <= ids@.len(),
            forall|k: int| 0 <= k < i ==> ids@[k] != x,
        decreases ids@.len() - i,
    {
        if ids[i] == x {
            return true;
        }
        i = i + 1;
    }
    false
}

/// The key by which a player is ordered under `by`.
pub fn player_key_of(e: &Element, by: SortBy) -> (k: DecimalKey)
    ensures
        key_wf(k),
        k.frac@.len() == player_places(*e, by),
        forall|scale: nat| #[trigger] key_at(k, scale) == player_key(*e, by, scale),
{
    match by {
        SortBy::Cost => whole_key(e.now_cost as i128),
        SortBy::Points => whole_key(e.total_points as i128),
        SortBy::SelectedBy => decimal_key_of(e.selected_by_percent.as_str()),
        SortBy::Form => decimal_key_of(e.form.as_str()),
    }
}

/// Whether a player passes the position and team filters.
pub fn player_passes(e: &Element, position: Option<Position>, team_ids: Option<&Vec<u64>>) -> (r:
    bool)
    ensures
        r == passes_filters(*e, position, ids_view(team_ids)),
{
    let position_ok = match position {
        Some(p) => e.element_type == p.element_type_id() as u64,
        None => true,
    };
    let team_ok = match team_ids {
        Some(ids) => contains_id(ids, e.team),
        None => true,
    };
    position_ok && team_ok
}

proof fn lemma_places_bounded(s: Seq<Element>, by: SortBy)
    ensures
        forall|i: int| 0 <= i < s.len() ==> player_places(#[trigger] s[i], by) <= max_places(s, by),
    decreases s.len(),
{
    if s.len() > 0 {
        let init = s.drop_last();
        lemma_places_bounded(init, by);
        assert forall|i: int| 0 <= i < s.len() implies player_places(#[trigger] s[i], by)
            <= max_places(s, by) by {
            if i < init.len() {
                assert(s[i] == init[i]);
            }
        }
    }
}

/// Keeps the players that pass the filters (no position filter, or no team
/// filter, when `None`), orders them by `sort` from highest to lowest value
/// keeping the input order among equal values, and keeps the first `limit`.
pub fn select_players(
    elements: Vec<Element>,
    position: Option<Position>,
    team_ids: Option<&Vec<u64>>,
    sort: SortBy,
    limit: usize,
) -> (r: Vec<Element>)
    ensures
        r@ == selected_players(elements@, position, ids_view(team_ids), sort, limit as nat),
{
    let ghost orig = elements@;
    let ghost ids = ids_view(team_ids);
    let mut input = elements;
    let mut kept: Vec<Element> = Vec::new();
    let mut done: usize = 0;
    let total: usize = input.len();
    while input.len() > 0
        invariant
            done + input@.len() == orig.len(),
            orig.len() == total,
            ids == ids_view(team_ids),
            input@ == orig.subrange(done as int, orig.len() as int),
            kept@ == candidates(orig.subrange(0, done as int), position, ids),
        decreases input.len(),
    {
        let e = input.remove(0);
        proof {
            let next = orig.subrange(0, done + 1);
            assert(next.drop_last() =~= orig.subrange(0, done as int));
            assert(next.last() == e);
        }
        if player_passes(&e, position, team_ids) {
            kept.push(e);
        }
        done = done + 1;
        assert(input@ =~= orig.subrange(done as int, orig.len() as int));
    }
    assert(orig.subrange(0, orig.len() as int) =~= orig);
    let ghost c = kept@;
    let ghost scale = max_places(c, sort);
    proof {
        lemma_places_bounded(c, sort);
    }
    let mut keyed: Vec<(DecimalKey, Element)> = Vec::new();
    let mut taken: usize = 0;
    let count: usize = kept.len();
    while kept.len() > 0
        invariant
            taken + kept@.len() == c.len(),
            c.len() == count,
            kept@ == c.subrange(taken as int, c.len() as int),
            forall|i: int| 0 <= i < c.len() ==> player_places(#[trigger] c[i], sort) <= scale,
            forall|i: int|
                0 <= i < keyed@.len() ==> key_wf((#[trigger] keyed@[i]).0)
                    && keyed@[i].0.frac@.len() <= scale,
            key_ranked(keyed@, scale) == keyed_players(c.subrange(0, taken as int), sort, scale),
        decreases kept.len(),
    {
        let e = kept.remove(0);
        assert(e == c[taken as int]);
        let k = player_key_of(&e, sort);
        let ghost before = keyed@;
        keyed.push((k, e));
        proof {
            assert(key_at(k, scale) == player_key(e, sort, scale));
            assert(key_ranked(keyed@, scale) =~= key_ranked(before, scale).push(
                (key_at(k, scale), e),
            ));
            assert(keyed_players(c.subrange(0, taken + 1), sort, scale) =~= keyed_players(
                c.subrange(0, taken as int),
                sort,
                scale,
            ).push((player_key(e, sort, scale), e)));
        }
        taken = taken + 1;
        assert(kept@ =~= c.subrange(taken as int, c.len() as int));
    }
    assert(c.subrange(0, c.len() as int) =~= c);
    let sorted = sort_by_key_desc(keyed, Ghost(scale));
    proof {
        lemma_unranked_key_ranked(sorted@, scale);
    }
    let mut players = strip_ranks(sorted);
    if limit < players.len() {
        players.truncate(limit);
        assert(players@ =~= selected_players(orig, position, ids, sort, limit as nat));
    }
    players
}

proof fn lemma_candidates_pass(
    s: Seq<Element>,
    position: Option<Position>,
    team_ids: Option<Seq<u64>>,
)
    ensures
        forall|i: int|
            0 <= i < candidates(s, position, team_ids).len() ==> passes_filters(
                #[trigger] candidates(s, position, team_ids)[i],
                position,
                team_ids,
            ),
    decreases s.len(),
{
    if s.len() > 0 {
        let prev = candidates(s.drop_last(), position, team_ids);
        lemma_candidates_pass(s.drop_last(), position, team_ids);
        let c = candidates(s, position, team_ids);
        assert forall|i: int| 0 <= i < c.len() implies passes_filters(
            #[trigger] c[i],
            position,
            team_ids,
        ) by {
            if i < prev.len() {
                assert(c[i] == prev[i]);
            }
        }
    }
}

/// Every player in the view passes the filters: with a position filter, its
/// position code is the requested one; with a team filter, its team is among
/// the given ids.
pub proof fn lemma_selected_players_pass_filters(
    s: Seq<Element>,
    position: Option<Position>,
    team_ids: Option<Seq<u64>>,
    by: SortBy,
    limit: nat,
)
    ensures
        forall|i: int|
            0 <= i < selected_players(s, position, team_ids, by, limit).len() ==> passes_filters(
                #[trigger] selected_players(s, position, team_ids, by, limit)[i],
                position,
                team_ids,
            ),
{
    let c = candidates(s, position, team_ids);
    let k = keyed_players(c, by, max_places(c, by));
    lemma_candidates_pass(s, position, team_ids);
    lemma_sort_by_rank_members(k);
    let sorted = sort_by_rank(k);
    let r = selected_players(s, position, team_ids, by, limit);
    assert forall|i: int| 0 <= i < r.len() implies passes_filters(
        #[trigger] r[i],
        position,
        team_ids,
    ) by {
        assert(r[i] == sorted[i].1);
        let j = choose|j: int| 0 <= j < k.len() && k[j] == sorted[i];
        assert(k[j].1 == c[j]);
    }
}

/// The view holds `limit` players, or every player that passes the filters
/// when there are no more than `limit` of them.
pub proof fn lemma_selected_players_complete(
    s: Seq<Element>,
    position: Option<Position>,
    team_ids: Option<Seq<u64>>,
    by: SortBy,
    limit: nat,
)
    ensures
        selected_players(s, position, team_ids, by, limit).len() == (if limit < candidates(
            s,
            position,
            team_ids,
        ).len() {
            limit
        } else {
            candidates(s, position, team_ids).len()
        }),
        candidates(s, position, team_ids).len() <= limit ==> forall|e: Element|
            candidates(s, position, team_ids).contains(e) ==> selected_players(
                s,
                position,
                team_ids,
                by,
                limit,
            ).contains(e),
{
    broadcast use vstd::seq_lib::to_multiset_contains;

    let c = candidates(s, position, team_ids);
    let k = keyed_players(c, by, max_places(c, by));
    lemma_sort_by_rank_descending(k);
    lemma_sort_by_rank_permutes(k);
    let sorted = sort_by_rank(k);
    let r = selected_players(s, position, team_ids, by, limit);
    if c.len() <= limit {
        assert forall|e: Element| c.contains(e) implies r.contains(e) by {
            let j = choose|j: int| 0 <= j < c.len() && c[j] == e;
            let x = k[j];
            assert(k.contains(x));
            assert(k.to_multiset().count(x) > 0);
            assert(sorted.contains(x));
            let i = choose|i: int| 0 <= i < sorted.len() && sorted[i] == x;
            assert(r[i] == e);
        }
    }
}

proof fn lemma_zero_text_value(scale: nat)
    ensures
        decimal_at_scale("0.0"@, scale) == 0,
{
    reveal_strlit("0.0");
    let u = "0.0"@;
    assert(u.len() == 3 && u[0] == '0' && u[1] == '.' && u[2] == '0');
    assert(!crate::decimal::all_digits(u)) by {
        assert(!crate::decimal::is_digit(u[1]));
    }
    assert(u.subrange(0, 1) =~= seq!['0']);
    assert(u.subrange(2, 3) =~= seq!['0']);
    assert(crate::decimal::point_at(u, 1));
    assert forall|i: int| crate::decimal::point_at(u, i) implies i == 1 by {
        if i == 0 {
            assert(u[0] != '.');
        } else if i == 2 {
            assert(u[2] != '.');
        }
    }
    let z = seq!['0', '0'];
    assert(seq!['0'] + seq!['0'] =~= z);
    assert(z.drop_last() =~= seq!['0']);
    let one = seq!['0'];
    assert(one.drop_last() =~= Seq::<char>::empty());
    assert(one.last() == '0');
    assert(digits_value(one.drop_last()) == 0);
    assert(digits_value(one) == 0);
    assert(z.last() == '0');
    assert(digits_value(z) == 0);
}

/// Ordering by "selected-by" or "form" never fails on a text that is not a
/// decimal: such a player is ordered as if its value were 0.0.
pub proof fn lemma_malformed_ranks_as_zero(e: Element, by: SortBy, scale: nat)
    requires
        by == SortBy::SelectedBy || by == SortBy::Form,
        by == SortBy::SelectedBy ==> decimal_parts(e.selected_by_percent@) is None,
        by == SortBy::Form ==> decimal_parts(e.form@) is None,
    ensures
        player_key(e, by, scale) == decimal_at_scale("0.0"@, scale),
        player_key(e, by, scale) == 0,
        player_places(e, by) == 0,
{
    lemma_zero_text_value(scale);
}

} // verus!
