//! Per-category scoring breakdown of a player's live explanation records.
use vstd::prelude::*;
use crate::models::{LiveExplain, LiveExplainStat};
use crate::text::text_eq;

verus! {

/// Points per scoring category, summed over every match of a gameweek.
#[derive(Clone, Copy, Debug, PartialEq, Eq, Structural)]
pub struct StatsPoints {
    pub minutes: i64,
    pub goals_scored: i64,
    pub assists: i64,
    pub clean_sheets: i64,
    pub goals_conceded: i64,
    pub saves: i64,
    pub penalties_saved: i64,
    pub penalties_missed: i64,
    pub yellow_cards: i64,
    pub red_cards: i64,
    pub own_goals: i64,
    pub bonus: i64,
}

/// `v` brought into the range of `i64`.
pub open spec fn clamp_i64(v: int) -> int {
    if v > i64::MAX {
        i64::MAX as int
    } else if v < i64::MIN {
        i64::MIN as int
    } else {
        v
    }
}

/// Every explanation triple of every match, in order.
pub open spec fn explained_stats(explain: Seq<LiveExplain>) -> Seq<LiveExplainStat>
    decreases explain.len(),
{
    if explain.len() == 0 {
        Seq::empty()
    } else {
        explained_stats(explain.drop_last()) + explain.last().stats@
    }
}

/// The points of the triples with identifier `id`, added up one by one,
/// each partial sum held within the range of `i64`.
pub open spec fn category_running_total(stats: Seq<LiveExplainStat>, id: Seq<char>) -> int
    decreases stats.len(),
{
    if stats.len() == 0 {
        0
    } else {
        let prev = category_running_total(stats.drop_last(), id);
        if stats.last().identifier@ == id {
            clamp_i64(prev + stats.last().points)
        } else {
            prev
        }
    }
}

/// The exact sum of the points of the triples with identifier `id`.
pub open spec fn category_total(stats: Seq<LiveExplainStat>, id: Seq<char>) -> int
    decreases stats.len(),
{
    if stats.len() == 0 {
        0
    } else {
        let prev = category_total(stats.drop_last(), id);
        if stats.last().identifier@ == id {
            prev + stats.last().points
        } else {
            prev
        }
    }
}

/// The sum of the absolute values of the points of all triples.
pub open spec fn points_magnitude(stats: Seq<LiveExplainStat>) -> int
    decreases stats.len(),
{
    if stats.len() == 0 {
        0
    } else {
        let p = stats.last().points;
        points_magnitude(stats.drop_last()) + if p < 0 {
            -p
        } else {
            p as int
        }
    }
}

/// The breakdown with every category at zero.
pub open spec fn zero_points() -> StatsPoints {
    StatsPoints {
        minutes: 0,
        goals_scored: 0,
        assists: 0,
        clean_sheets: 0,
        goals_conceded: 0,
        saves: 0,
        penalties_saved: 0,
        penalties_missed: 0,
        yellow_cards: 0,
        red_cards: 0,
        own_goals: 0,
        bonus: 0,
    }
}

/// The breakdown of a sequence of triples: each category holds the running
/// total of the triples with its identifier; other identifiers are ignored.
pub open spec fn breakdown_of(stats: Seq<LiveExplainStat>) -> StatsPoints {
    StatsPoints {
        minutes: category_running_total(stats, "minutes"@) as i64,
        goals_scored: category_running_total(stats, "goals_scored"@) as i64,
        assists: category_running_total(stats, "assists"@) as i64,
        clean_sheets: category_running_total(stats, "clean_sheets"@) as i64,
        goals_conceded: category_running_total(stats, "goals_conceded"@) as i64,
        saves: category_running_total(stats, "saves"@) as i64,
        penalties_saved: category_running_total(stats, "penalties_saved"@) as i64,
        penalties_missed: category_running_total(stats, "penalties_missed"@) as i64,
        yellow_cards: category_running_total(stats, "yellow_cards"@) as i64,
        red_cards: category_running_total(stats, "red_cards"@) as i64,
        own_goals: category_running_total(stats, "own_goals"@) as i64,
        bonus: category_running_total(stats, "bonus"@) as i64,
    }
}

proof fn lemma_running_total_in_range(stats: Seq<LiveExplainStat>, id: Seq<char>)
    ensures
        i64::MIN <= category_running_total(stats, id) <= i64::MAX,
    decreases stats.len(),
{
    if stats.len() > 0 {
        lemma_running_total_in_range(stats.drop_last(), id);
    }
}

proof fn lemma_breakdown_in_range(stats: Seq<LiveExplainStat>)
    ensures
        i64::MIN <= category_running_total(stats, "minutes"@) <= i64::MAX,
        i64::MIN <= category_running_total(stats, "goals_scored"@) <= i64::MAX,
        i64::MIN <= category_running_total(stats, "assists"@) <= i64::MAX,
        i64::MIN <= category_running_total(stats, "clean_sheets"@) <= i64::MAX,
        i64::MIN <= category_running_total(stats, "goals_conceded"@) <= i64::MAX,
        i64::MIN <= category_running_total(stats, "saves"@) <= i64::MAX,
        i64::MIN <= category_running_total(stats, "penalties_saved"@) <= i64::MAX,
        i64::MIN <= category_running_total(stats, "penalties_missed"@) <= i64::MAX,
        i64::MIN <= category_running_total(stats, "yellow_cards"@) <= i64::MAX,
        i64::MIN <= category_running_total(stats, "red_cards"@) <= i64::MAX,
        i64::MIN <= category_running_total(stats, "own_goals"@) <= i64::MAX,
        i64::MIN <= category_running_total(stats, "bonus"@) <= i64::MAX,
{
    lemma_running_total_in_range(stats, "minutes"@);
    lemma_running_total_in_range(stats, "goals_scored"@);
    lemma_running_total_in_range(stats, "assists"@);
    lemma_running_total_in_range(stats, "clean_sheets"@);
    lemma_running_total_in_range(stats, "goals_conceded"@);
    lemma_running_total_in_range(stats, "saves"@);
    lemma_running_total_in_range(stats, "penalties_saved"@);
    lemma_running_total_in_range(stats, "penalties_missed"@);
    lemma_running_total_in_range(stats, "yellow_cards"@);
    lemma_running_total_in_range(stats, "red_cards"@);
    lemma_running_total_in_range(stats, "own_goals"@);
    lemma_running_total_in_range(stats, "bonus"@);
}

/// `a + b` held within the range of `i64`.
fn saturating_sum(a: i64, b: i64) -> (r: i64)
    ensures
        r == clamp_i64(a + b),
{
    match a.checked_add(b) {
        Some(v) => v,
        None => if b > 0 {
            i64::MAX
        } else {
            i64::MIN
        },
    }
}

/// `after` is `before` with the points of `stat` added to the category that
/// it names, if any.
pub open spec fn stat_added(before: StatsPoints, after: StatsPoints, stat: LiveExplainStat) -> bool {
    &&& after.minutes == (if stat.identifier@ == "minutes"@ {
        clamp_i64(before.minutes + stat.points)
    } else {
        before.minutes as int
    })
    &&& after.goals_scored == (if stat.identifier@ == "goals_scored"@ {
        clamp_i64(before.goals_scored + stat.points)
    } else {
        before.goals_scored as int
    })
    &&& after.assists == (if stat.identifier@ == "assists"@ {
        clamp_i64(before.assists + stat.points)
    } else {
        before.assists as int
    })
    &&& after.clean_sheets == (if stat.identifier@ == "clean_sheets"@ {
        clamp_i64(before.clean_sheets + stat.points)
    } else {
        before.clean_sheets as int
    })
    &&& after.goals_conceded == (if stat.identifier@ == "goals_conceded"@ {
        clamp_i64(before.goals_conceded + stat.points)
    } else {
        before.goals_conceded as int
    })
    &&& after.saves == (if stat.identifier@ == "saves"@ {
        clamp_i64(before.saves + stat.points)
    } else {
        before.saves as int
    })
    &&& after.penalties_saved == (if stat.identifier@ == "penalties_saved"@ {
        clamp_i64(before.penalties_saved + stat.points)
    } else {
        before.penalties_saved as int
    })
    &&& after.penalties_missed == (if stat.identifier@ == "penalties_missed"@ {
        clamp_i64(before.penalties_missed + stat.points)
    } else {
        before.penalties_missed as int
    })
    &&& after.yellow_cards == (if stat.identifier@ == "yellow_cards"@ {
        clamp_i64(before.yellow_cards + stat.points)
    } else {
        before.yellow_cards as int
    })
    &&& after.red_cards == (if stat.identifier@ == "red_cards"@ {
        clamp_i64(before.red_cards + stat.points)
    } else {
        before.red_cards as int
    })
    &&& after.own_goals == (if stat.identifier@ == "own_goals"@ {
        clamp_i64(before.own_goals + stat.points)
    } else {
        before.own_goals as int
    })
    &&& after.bonus == (if stat.identifier@ == "bonus"@ {
        clamp_i64(before.bonus + stat.points)
    } else {
        before.bonus as int
    })
}

proof fn lemma_breakdown_step(
    s: Seq<LiveExplainStat>,
    x: LiveExplainStat,
    before: StatsPoints,
    after: StatsPoints,
)
    requires
        before == breakdown_of(s),
        stat_added(before, after, x),
    ensures
        after == breakdown_of(s.push(x)),
{
    let next = s.push(x);
    assert(next.drop_last() =~= s);
    lemma_breakdown_in_range(s);
    lemma_breakdown_in_range(next);
}

/// Adds the points of one triple to the category it names, if any.
fn add_stat(acc: &mut StatsPoints, stat: &LiveExplainStat)
    ensures
        stat_added(*old(acc), *final(acc), *stat),
{
    let id = stat.identifier.as_str();
    let p = stat.points;
    if text_eq(id, "minutes") {
        acc.minutes = saturating_sum(acc.minutes, p);
    }
    if text_eq(id, "goals_scored") {
        acc.goals_scored = saturating_sum(acc.goals_scored, p);
    }
    if text_eq(id, "assists") {
        acc.assists = saturating_sum(acc.assists, p);
    }
    if text_eq(id, "clean_sheets") {
        acc.clean_sheets = saturating_sum(acc.clean_sheets, p);
    }
    if text_eq(id, "goals_conceded") {
        acc.goals_conceded = saturating_sum(acc.goals_conceded, p);
    }
    if text_eq(id, "saves") {
        acc.saves = saturating_sum(acc.saves, p);
    }
    if text_eq(id, "penalties_saved") {
        acc.penalties_saved = saturating_sum(acc.penalties_saved, p);
    }
    if text_eq(id, "penalties_missed") {
        acc.penalties_missed = saturating_sum(acc.penalties_missed, p);
    }
    if text_eq(id, "yellow_cards") {
        acc.yellow_cards = saturating_sum(acc.yellow_cards, p);
    }
    if text_eq(id, "red_cards") {
        acc.red_cards = saturating_sum(acc.red_cards, p);
    }
    if text_eq(id, "own_goals") {
        acc.own_goals = saturating_sum(acc.own_goals, p);
    }
    if text_eq(id, "bonus") {
        acc.bonus = saturating_sum(acc.bonus, p);
    }
}

proof fn lemma_explained_stats_concat(a: Seq<LiveExplain>, b: Seq<LiveExplain>)
    ensures
        explained_stats(a + b) == explained_stats(a) + explained_stats(b),
    decreases b.len(),
{
    if b.len() == 0 {
        assert(a + b =~= a);
        assert(explained_stats(a) + explained_stats(b) =~= explained_stats(a));
    } else {
        lemma_explained_stats_concat(a, b.drop_last());
        assert((a + b).drop_last() =~= a + b.drop_last());
        assert((a + b).last() == b.last());
        assert(explained_stats(a) + explained_stats(b.drop_last()) + b.last().stats@
            =~= explained_stats(a) + (explained_stats(b.drop_last()) + b.last().stats@));
    }
}

proof fn lemma_magnitude_concat(s: Seq<LiveExplainStat>, t: Seq<LiveExplainStat>)
    ensures
        points_magnitude(s + t) == points_magnitude(s) + points_magnitude(t),
        points_magnitude(s) >= 0,
        points_magnitude(t) >= 0,
    decreases t.len(),
{
    lemma_magnitude_nonnegative(s);
    lemma_magnitude_nonnegative(t);
    if t.len() == 0 {
        assert(s + t =~= s);
    } else {
        lemma_magnitude_concat(s, t.drop_last());
        assert((s + t).drop_last() =~= s + t.drop_last());
        assert((s + t).last() == t.last());
    }
}

proof fn lemma_magnitude_nonnegative(s: Seq<LiveExplainStat>)
    ensures
        points_magnitude(s) >= 0,
    decreases s.len(),
{
    if s.len() > 0 {
        lemma_magnitude_nonnegative(s.drop_last());
    }
}

/// While the points involved stay within the range of `i64`, each category
/// holds the exact sum of the points of the triples with its identifier.
pub proof fn lemma_running_total_exact(s: Seq<LiveExplainStat>, id: Seq<char>)
    requires
        points_magnitude(s) <= i64::MAX,
    ensures
        category_running_total(s, id) == category_total(s, id),
        -points_magnitude(s) <= category_total(s, id) <= points_magnitude(s),
    decreases s.len(),
{
    if s.len() > 0 {
        lemma_magnitude_nonnegative(s.drop_last());
        lemma_running_total_exact(s.drop_last(), id);
    }
}

proof fn lemma_total_concat(s: Seq<LiveExplainStat>, t: Seq<LiveExplainStat>, id: Seq<char>)
    ensures
        category_total(s + t, id) == category_total(s, id) + category_total(t, id),
    decreases t.len(),
{
    if t.len() == 0 {
        assert(s + t =~= s);
    } else {
        lemma_total_concat(s, t.drop_last(), id);
        assert((s + t).drop_last() =~= s + t.drop_last());
        assert((s + t).last() == t.last());
    }
}

/// A player with no explanation records has every category at zero.
pub proof fn lemma_no_records_all_zero(explain: Seq<LiveExplain>)
    requires
        explain.len() == 0,
    ensures
        breakdown_of(explained_stats(explain)) == zero_points(),
{
}

/// The points of a category add up across the matches of one gameweek: the
/// total over the records `a` followed by `b` is the total over `a` plus the
/// total over `b`, as long as the points involved stay within the range of
/// `i64` (beyond it the totals are held at the bounds).
pub proof fn lemma_breakdown_additive(a: Seq<LiveExplain>, b: Seq<LiveExplain>, id: Seq<char>)
    requires
        points_magnitude(explained_stats(a + b)) <= i64::MAX,
    ensures
        category_running_total(explained_stats(a + b), id) == category_running_total(
            explained_stats(a),
            id,
        ) + category_running_total(explained_stats(b), id),
{
    let sa = explained_stats(a);
    let sb = explained_stats(b);
    lemma_explained_stats_concat(a, b);
    lemma_magnitude_concat(sa, sb);
    lemma_running_total_exact(sa + sb, id);
    lemma_running_total_exact(sa, id);
    lemma_running_total_exact(sb, id);
    lemma_total_concat(sa, sb, id);
}

/// Adds up, per scoring category, the points of every explanation triple of
/// every match; identifiers of no known category are ignored.
pub fn compute_stats_points(explain: &Vec<LiveExplain>) -> (r: StatsPoints)
    ensures
        r == breakdown_of(explained_stats(explain@)),
{
    let mut acc = StatsPoints {
        minutes: 0,
        goals_scored: 0,
        assists: 0,
        clean_sheets: 0,
        goals_conceded: 0,
        saves: 0,
        penalties_saved: 0,
        penalties_missed: 0,
        yellow_cards: 0,
        red_cards: 0,
        own_goals: 0,
        bonus: 0,
    };
    let mut i: usize = 0;
    while i < explain.len()
        invariant
            i <= explain@.len(),
            acc == breakdown_of(explained_stats(explain@.subrange(0, i as int))),
        decreases explain@.len() - i,
    {
        let stats = &explain[i].stats;
        let ghost before = explained_stats(explain@.subrange(0, i as int));
        let mut j: usize = 0;
        assert(before + stats@.subrange(0, 0) =~= before);
        while j < stats.len()
            invariant
                j <= stats@.len(),
                acc == breakdown_of(before + stats@.subrange(0, j as int)),
            decreases stats@.len() - j,
        {
            let ghost prefix = before + stats@.subrange(0, j as int);
            let ghost acc_before = acc;
            add_stat(&mut acc, &stats[j]);
            proof {
                lemma_breakdown_step(prefix, stats@[j as int], acc_before, acc);
                assert(before + stats@.subrange(0, j + 1) =~= prefix.push(stats@[j as int]));
            }
            j = j + 1;
        }
        proof {
            let sub = explain@.subrange(0, i + 1);
            assert(sub.drop_last() =~= explain@.subrange(0, i as int));
            assert(stats@.subrange(0, stats@.len() as int) =~= stats@);
        }
        i = i + 1;
    }
    assert(explain@.subrange(0, explain@.len() as int) =~= explain@);
    acc
}

} // verus!
