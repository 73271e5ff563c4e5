//! Stable orderings: of ranked items, highest rank first, and of items
//! keyed by a text, in lexicographic order.
use vstd::prelude::*;
use vstd::multiset::Multiset;
use crate::decimal::{
    common_places, key_at, key_less, key_wf, lemma_key_rescale, lemma_pow10_positive, pow10,
    DecimalKey,
};
use crate::text::{text_less, text_lt};

verus! {

/// `s` with `x` placed after every item whose rank is at least the rank of `x`.
pub open spec fn insert_by_rank<T>(s: Seq<(int, T)>, x: (int, T)) -> Seq<(int, T)>
    decreases s.len(),
{
    if s.len() == 0 {
        seq![x]
    } else if s[0].0 < x.0 {
        seq![x] + s
    } else {
        seq![s[0]] + insert_by_rank(s.drop_first(), x)
    }
}

/// The items of `s` ordered by rank, highest first, where items of equal rank
/// keep the order they have in `s`.
pub open spec fn sort_by_rank<T>(s: Seq<(int, T)>) -> Seq<(int, T)>
    decreases s.len(),
{
    if s.len() == 0 {
        s
    } else {
        insert_by_rank(sort_by_rank(s.drop_last()), s.last())
    }
}

/// No item of `s` has a higher rank than one before it.
pub open spec fn ranks_descending<T>(s: Seq<(int, T)>) -> bool {
    forall|i: int, j: int| 0 <= i < j < s.len() ==> s[j].0 <= s[i].0
}

/// The items of `s` whose rank is `k`, in their order in `s`.
pub open spec fn items_of_rank<T>(s: Seq<(int, T)>, k: int) -> Seq<(int, T)>
    decreases s.len(),
{
    if s.len() == 0 {
        s
    } else if s[0].0 == k {
        seq![s[0]] + items_of_rank(s.drop_first(), k)
    } else {
        items_of_rank(s.drop_first(), k)
    }
}

/// The second components of `s`, in order.
pub open spec fn unranked<K, T>(s: Seq<(K, T)>) -> Seq<T> {
    s.map_values(|p: (K, T)| p.1)
}

/// Items whose ranks are machine integers, with the ranks as integers.
pub open spec fn int_ranked<T>(s: Seq<(i128, T)>) -> Seq<(int, T)> {
    s.map_values(|p: (i128, T)| (p.0 as int, p.1))
}

/// Items ranked by decimal keys, with the ranks as the keys' values at
/// `scale` decimal places.
pub open spec fn key_ranked<T>(s: Seq<(DecimalKey, T)>, scale: nat) -> Seq<(int, T)> {
    s.map_values(|p: (DecimalKey, T)| (key_at(p.0, scale), p.1))
}

/// Viewing machine-integer ranks as integers keeps the items.
pub proof fn lemma_unranked_int_ranked<T>(s: Seq<(i128, T)>)
    ensures
        unranked(int_ranked(s)) == unranked(s),
{
    assert(unranked(int_ranked(s)) =~= unranked(s));
}

/// Viewing decimal keys as their values keeps the items.
pub proof fn lemma_unranked_key_ranked<T>(s: Seq<(DecimalKey, T)>, scale: nat)
    ensures
        unranked(key_ranked(s, scale)) == unranked(s),
{
    assert(unranked(key_ranked(s, scale)) =~= unranked(s));
}

proof fn lemma_insert_at<T>(s: Seq<(int, T)>, x: (int, T), pos: int)
    requires
        0 <= pos <= s.len(),
        forall|j: int| 0 <= j < pos ==> s[j].0 >= x.0,
        pos < s.len() ==> s[pos].0 < x.0,
    ensures
        insert_by_rank(s, x) == s.insert(pos, x),
    decreases s.len(),
{
    if s.len() == 0 {
        assert(s.insert(pos, x) =~= seq![x]);
    } else if pos == 0 {
        assert(s.insert(pos, x) =~= seq![x] + s);
    } else {
        let rest = s.drop_first();
        lemma_insert_at(rest, x, pos - 1);
        assert(seq![s[0]] + rest.insert(pos - 1, x) =~= s.insert(pos, x));
    }
}

proof fn lemma_insert_bounded<T>(s: Seq<(int, T)>, x: (int, T), b: int)
    requires
        forall|j: int| 0 <= j < s.len() ==> s[j].0 <= b,
        x.0 <= b,
    ensures
        insert_by_rank(s, x).len() == s.len() + 1,
        forall|j: int| 0 <= j < insert_by_rank(s, x).len() ==> insert_by_rank(s, x)[j].0 <= b,
    decreases s.len(),
{
    if s.len() > 0 && s[0].0 >= x.0 {
        lemma_insert_bounded(s.drop_first(), x, b);
    }
}

proof fn lemma_insert_keeps_descending<T>(s: Seq<(int, T)>, x: (int, T))
    requires
        ranks_descending(s),
    ensures
        ranks_descending(insert_by_rank(s, x)),
        insert_by_rank(s, x).len() == s.len() + 1,
    decreases s.len(),
{
    if s.len() == 0 {
    } else if s[0].0 < x.0 {
        let r = seq![x] + s;
        assert forall|i: int, j: int| 0 <= i < j < r.len() implies r[j].0 <= r[i].0 by {
            if i > 0 {
                assert(r[i] == s[i - 1] && r[j] == s[j - 1]);
            } else {
                assert(r[j] == s[j - 1]);
                assert(s[j - 1].0 <= s[0].0);
            }
        }
    } else {
        let rest = s.drop_first();
        lemma_insert_keeps_descending(rest, x);
        lemma_insert_bounded(rest, x, s[0].0);
        let t = insert_by_rank(rest, x);
        let r = seq![s[0]] + t;
        assert forall|i: int, j: int| 0 <= i < j < r.len() implies r[j].0 <= r[i].0 by {
            assert(r[j] == t[j - 1]);
            if i > 0 {
                assert(r[i] == t[i - 1]);
            }
        }
    }
}

proof fn lemma_no_items_of_rank<T>(s: Seq<(int, T)>, k: int)
    requires
        forall|j: int| 0 <= j < s.len() ==> s[j].0 != k,
    ensures
        items_of_rank(s, k) == Seq::<(int, T)>::empty(),
    decreases s.len(),
{
    if s.len() > 0 {
        lemma_no_items_of_rank(s.drop_first(), k);
    }
}

proof fn lemma_items_of_rank_insert<T>(s: Seq<(int, T)>, x: (int, T), k: int)
    requires
        ranks_descending(s),
    ensures
        items_of_rank(insert_by_rank(s, x), k) == (if x.0 == k {
            items_of_rank(s, k).push(x)
        } else {
            items_of_rank(s, k)
        }),
    decreases s.len(),
{
    if s.len() == 0 {
        assert(seq![x].drop_first() =~= Seq::<(int, T)>::empty());
        assert(items_of_rank(s, k) =~= Seq::<(int, T)>::empty());
        if x.0 == k {
            assert(seq![x] + Seq::<(int, T)>::empty() =~= seq![x]);
        }
    } else if s[0].0 < x.0 {
        let r = seq![x] + s;
        assert(r.drop_first() =~= s);
        if x.0 == k {
            assert forall|j: int| 0 <= j < s.len() implies s[j].0 != k by {
                assert(s[j].0 <= s[0].0);
            }
            lemma_no_items_of_rank(s, k);
            assert(seq![x] + Seq::<(int, T)>::empty() =~= Seq::<(int, T)>::empty().push(x));
        }
    } else {
        let rest = s.drop_first();
        lemma_items_of_rank_insert(rest, x, k);
        let r = seq![s[0]] + insert_by_rank(rest, x);
        assert(r.drop_first() =~= insert_by_rank(rest, x));
        if s[0].0 == k && x.0 == k {
            assert(seq![s[0]] + items_of_rank(rest, k).push(x) =~= (seq![s[0]] + items_of_rank(
                rest,
                k,
            )).push(x));
        }
    }
}

proof fn lemma_items_of_rank_push<T>(s: Seq<(int, T)>, x: (int, T), k: int)
    ensures
        items_of_rank(s.push(x), k) == (if x.0 == k {
            items_of_rank(s, k).push(x)
        } else {
            items_of_rank(s, k)
        }),
    decreases s.len(),
{
    let p = s.push(x);
    if s.len() == 0 {
        assert(p.drop_first() =~= Seq::<(int, T)>::empty());
        assert(items_of_rank(s, k) =~= Seq::<(int, T)>::empty());
        assert(seq![x] + Seq::<(int, T)>::empty() =~= Seq::<(int, T)>::empty().push(x));
    } else {
        lemma_items_of_rank_push(s.drop_first(), x, k);
        assert(p.drop_first() =~= s.drop_first().push(x));
        if s[0].0 == k && x.0 == k {
            assert(seq![s[0]] + items_of_rank(s.drop_first(), k).push(x) =~= (seq![s[0]]
                + items_of_rank(s.drop_first(), k)).push(x));
        }
    }
}

proof fn lemma_insert_members<T>(s: Seq<(int, T)>, x: (int, T))
    ensures
        forall|i: int|
            0 <= i < insert_by_rank(s, x).len() ==> insert_by_rank(s, x)[i] == x || s.contains(
                insert_by_rank(s, x)[i],
            ),
    decreases s.len(),
{
    if s.len() == 0 {
    } else if s[0].0 < x.0 {
        let r = seq![x] + s;
        assert forall|i: int| 0 <= i < r.len() implies r[i] == x || s.contains(r[i]) by {
            if i > 0 {
                assert(r[i] == s[i - 1]);
            }
        }
    } else {
        let rest = s.drop_first();
        lemma_insert_members(rest, x);
        let t = insert_by_rank(rest, x);
        let r = seq![s[0]] + t;
        assert forall|i: int| 0 <= i < r.len() implies r[i] == x || s.contains(r[i]) by {
            if i > 0 {
                assert(r[i] == t[i - 1]);
                if r[i] != x {
                    let j = choose|j: int| 0 <= j < rest.len() && rest[j] == r[i];
                    assert(s[j + 1] == rest[j]);
                }
            } else {
                assert(s[0] == r[0]);
            }
        }
    }
}

/// Ordering by rank only rearranges: every item that comes out went in.
pub proof fn lemma_sort_by_rank_members<T>(s: Seq<(int, T)>)
    ensures
        forall|i: int| 0 <= i < sort_by_rank(s).len() ==> s.contains(#[trigger] sort_by_rank(s)[i]),
    decreases s.len(),
{
    if s.len() > 0 {
        let init = s.drop_last();
        lemma_sort_by_rank_members(init);
        lemma_insert_members(sort_by_rank(init), s.last());
        let r = sort_by_rank(s);
        assert forall|i: int| 0 <= i < r.len() implies s.contains(#[trigger] r[i]) by {
            if r[i] == s.last() {
                assert(s[s.len() - 1] == r[i]);
            } else {
                let j = choose|j: int| 0 <= j < sort_by_rank(init).len() && sort_by_rank(init)[j] == r[i];
                let k = choose|k: int| 0 <= k < init.len() && init[k] == sort_by_rank(init)[j];
                assert(s[k] == init[k]);
            }
        }
    }
}

proof fn lemma_insert_multiset<T>(s: Seq<(int, T)>, x: (int, T))
    ensures
        insert_by_rank(s, x).to_multiset() == s.to_multiset().insert(x),
    decreases s.len(),
{
    broadcast use vstd::seq_lib::group_to_multiset_ensures;

    if s.len() == 0 {
        assert(seq![x] =~= s.push(x));
    } else if s[0].0 < x.0 {
        vstd::seq_lib::lemma_multiset_commutative(seq![x], s);
        assert(seq![x] =~= Seq::<(int, T)>::empty().push(x));
        assert(seq![x].to_multiset() =~= Multiset::<(int, T)>::empty().insert(x));
        assert(Multiset::<(int, T)>::empty().insert(x).add(s.to_multiset()) =~= s.to_multiset().insert(x));
    } else {
        let rest = s.drop_first();
        lemma_insert_multiset(rest, x);
        let t = insert_by_rank(rest, x);
        vstd::seq_lib::lemma_multiset_commutative(seq![s[0]], t);
        vstd::seq_lib::lemma_multiset_commutative(seq![s[0]], rest);
        assert(seq![s[0]] + rest =~= s);
        assert(seq![s[0]] =~= Seq::<(int, T)>::empty().push(s[0]));
        assert(seq![s[0]].to_multiset().add(rest.to_multiset().insert(x)) =~= seq![s[0]].to_multiset().add(
            rest.to_multiset(),
        ).insert(x));
    }
}

/// Ordering by rank only rearranges: the same items come out, each as often as
/// it went in.
pub proof fn lemma_sort_by_rank_permutes<T>(s: Seq<(int, T)>)
    ensures
        sort_by_rank(s).to_multiset() == s.to_multiset(),
    decreases s.len(),
{
    broadcast use vstd::seq_lib::group_to_multiset_ensures;

    if s.len() > 0 {
        let init = s.drop_last();
        lemma_sort_by_rank_permutes(init);
        lemma_insert_multiset(sort_by_rank(init), s.last());
        assert(init.push(s.last()) =~= s);
    }
}

/// Ordering by rank yields ranks in descending order.
pub proof fn lemma_sort_by_rank_descending<T>(s: Seq<(int, T)>)
    ensures
        ranks_descending(sort_by_rank(s)),
        sort_by_rank(s).len() == s.len(),
    decreases s.len(),
{
    if s.len() > 0 {
        lemma_sort_by_rank_descending(s.drop_last());
        lemma_insert_keeps_descending(sort_by_rank(s.drop_last()), s.last());
    }
}

/// Ordering by rank is stable: for every rank, the items of that rank come out
/// in the order in which they went in.
pub proof fn lemma_sort_by_rank_stable<T>(s: Seq<(int, T)>, k: int)
    ensures
        items_of_rank(sort_by_rank(s), k) == items_of_rank(s, k),
    decreases s.len(),
{
    if s.len() > 0 {
        let init = s.drop_last();
        lemma_sort_by_rank_stable(init, k);
        lemma_sort_by_rank_descending(init);
        lemma_items_of_rank_insert(sort_by_rank(init), s.last(), k);
        lemma_items_of_rank_push(init, s.last(), k);
        assert(init.push(s.last()) =~= s);
    }
}

/// Orders `items` by rank, highest first, keeping the input order among items
/// of equal rank.
pub fn sort_by_rank_desc<T>(items: Vec<(i128, T)>) -> (r: Vec<(i128, T)>)
    ensures
        int_ranked(r@) == sort_by_rank(int_ranked(items@)),
{
    let ghost orig = items@;
    let mut input = items;
    let mut out: Vec<(i128, T)> = Vec::new();
    let mut done: usize = 0;
    let total: usize = input.len();
    assert(int_ranked(orig.subrange(0, 0)) =~= Seq::<(int, T)>::empty());
    assert(int_ranked(out@) =~= Seq::<(int, T)>::empty());
    while input.len() > 0
        invariant
            done + input@.len() == orig.len(),
            orig.len() == total,
            input@ == orig.subrange(done as int, orig.len() as int),
            int_ranked(out@) == sort_by_rank(int_ranked(orig.subrange(0, done as int))),
        decreases input.len(),
    {
        let x = input.remove(0);
        let mut pos: usize = 0;
        while pos < out.len() && out[pos].0 >= x.0
            invariant
                pos <= out@.len(),
                forall|j: int| 0 <= j < pos ==> out@[j].0 >= x.0,
            decreases out@.len() - pos,
        {
            pos = pos + 1;
        }
        proof {
            let v = int_ranked(out@);
            lemma_insert_at(v, (x.0 as int, x.1), pos as int);
            let next = orig.subrange(0, done + 1);
            assert(int_ranked(next).drop_last() =~= int_ranked(orig.subrange(0, done as int)));
            assert(int_ranked(next).last() == (x.0 as int, x.1));
            assert(int_ranked(out@.insert(pos as int, x)) =~= v.insert(pos as int, (x.0 as int, x.1)));
        }
        out.insert(pos, x);
        done = done + 1;
        assert(input@ =~= orig.subrange(done as int, orig.len() as int));
    }
    assert(orig.subrange(0, orig.len() as int) =~= orig);
    out
}

/// Orders `items` by the values of their keys, highest first, keeping the
/// input order among items of equal value; `scale` is any number of decimal
/// places at which every key's value is whole.
pub(crate) fn sort_by_key_desc<T>(items: Vec<(DecimalKey, T)>, Ghost(scale): Ghost<nat>) -> (r: Vec<
    (DecimalKey, T),
>)
    requires
        forall|i: int|
            0 <= i < items@.len() ==> key_wf((#[trigger] items@[i]).0) && items@[i].0.frac@.len()
                <= scale,
    ensures
        key_ranked(r@, scale) == sort_by_rank(key_ranked(items@, scale)),
{
    let ghost orig = items@;
    let mut input = items;
    let mut out: Vec<(DecimalKey, T)> = Vec::new();
    let mut done: usize = 0;
    let total: usize = input.len();
    assert(key_ranked(orig.subrange(0, 0), scale) =~= Seq::<(int, T)>::empty());
    assert(key_ranked(out@, scale) =~= Seq::<(int, T)>::empty());
    while input.len() > 0
        invariant
            done + input@.len() == orig.len(),
            orig.len() == total,
            input@ == orig.subrange(done as int, orig.len() as int),
            forall|i: int|
                0 <= i < orig.len() ==> key_wf((#[trigger] orig[i]).0) && orig[i].0.frac@.len()
                    <= scale,
            forall|i: int|
                0 <= i < out@.len() ==> key_wf((#[trigger] out@[i]).0) && out@[i].0.frac@.len()
                    <= scale,
            key_ranked(out@, scale) == sort_by_rank(key_ranked(orig.subrange(0, done as int), scale)),
        decreases input.len(),
    {
        let x = input.remove(0);
        assert(x == orig[done as int]);
        let mut pos: usize = 0;
        while pos < out.len() && !key_less(&out[pos].0, &x.0)
            invariant
                pos <= out@.len(),
                key_wf(x.0),
                x.0.frac@.len() <= scale,
                forall|i: int|
                    0 <= i < out@.len() ==> key_wf((#[trigger] out@[i]).0)
                        && out@[i].0.frac@.len() <= scale,
                forall|j: int| 0 <= j < pos ==> key_at(out@[j].0, scale) >= key_at(x.0, scale),
            decreases out@.len() - pos,
        {
            proof {
                lemma_less_at_scale(out@[pos as int].0, x.0, scale);
            }
            pos = pos + 1;
        }
        proof {
            if pos < out@.len() {
                lemma_less_at_scale(out@[pos as int].0, x.0, scale);
            }
            let v = key_ranked(out@, scale);
            let xr = (key_at(x.0, scale), x.1);
            lemma_insert_at(v, xr, pos as int);
            let next = orig.subrange(0, done + 1);
            assert(key_ranked(next, scale).drop_last() =~= key_ranked(
                orig.subrange(0, done as int),
                scale,
            ));
            assert(key_ranked(next, scale).last() == xr);
            assert(key_ranked(out@.insert(pos as int, x), scale) =~= v.insert(pos as int, xr));
        }
        out.insert(pos, x);
        done = done + 1;
        assert(input@ =~= orig.subrange(done as int, orig.len() as int));
    }
    assert(orig.subrange(0, orig.len() as int) =~= orig);
    out
}

/// Comparing two keys at their common number of places agrees with comparing
/// them at any larger scale.
proof fn lemma_less_at_scale(a: DecimalKey, b: DecimalKey, scale: nat)
    requires
        a.frac@.len() <= scale,
        b.frac@.len() <= scale,
    ensures
        (key_at(a, common_places(a, b)) < key_at(b, common_places(a, b))) == (key_at(a, scale)
            < key_at(b, scale)),
{
    let m = common_places(a, b);
    lemma_key_rescale(a, m, scale);
    lemma_key_rescale(b, m, scale);
    let p = pow10((scale - m) as nat);
    lemma_pow10_positive((scale - m) as nat);
    let x = key_at(a, m);
    let y = key_at(b, m);
    assert((x < y) == (x * p < y * p)) by (nonlinear_arith)
        requires
            p >= 1,
    ;
}

/// Drops the ranks, keeping the order.
pub fn strip_ranks<K, T>(items: Vec<(K, T)>) -> (r: Vec<T>)
    ensures
        r@ == unranked(items@),
{
    let ghost orig = items@;
    let mut input = items;
    let mut out: Vec<T> = Vec::new();
    let mut done: usize = 0;
    let total: usize = input.len();
    while input.len() > 0
        invariant
            done + input@.len() == orig.len(),
            orig.len() == total,
            input@ == orig.subrange(done as int, orig.len() as int),
            out@ == unranked(orig.subrange(0, done as int)),
        decreases input.len(),
    {
        let x = input.remove(0);
        out.push(x.1);
        proof {
            assert(unranked(orig.subrange(0, done + 1)) =~= unranked(orig.subrange(0, done as int)).push(x.1));
        }
        done = done + 1;
        assert(input@ =~= orig.subrange(done as int, orig.len() as int));
    }
    assert(orig.subrange(0, orig.len() as int) =~= orig);
    out
}

/// `s` with `x` placed after every item whose key does not come after the key
/// of `x`.
pub open spec fn insert_by_text<T>(s: Seq<(String, T)>, x: (String, T)) -> Seq<(String, T)>
    decreases s.len(),
{
    if s.len() == 0 {
        seq![x]
    } else if text_lt(x.0@, s[0].0@) {
        seq![x] + s
    } else {
        seq![s[0]] + insert_by_text(s.drop_first(), x)
    }
}

/// The items of `s` in lexicographic order of their keys, where items with
/// equal keys keep the order they have in `s`.
pub open spec fn sort_by_text<T>(s: Seq<(String, T)>) -> Seq<(String, T)>
    decreases s.len(),
{
    if s.len() == 0 {
        s
    } else {
        insert_by_text(sort_by_text(s.drop_last()), s.last())
    }
}

proof fn lemma_insert_by_text_at<T>(s: Seq<(String, T)>, x: (String, T), pos: int)
    requires
        0 <= pos <= s.len(),
        forall|j: int| 0 <= j < pos ==> !text_lt(x.0@, s[j].0@),
        pos < s.len() ==> text_lt(x.0@, s[pos].0@),
    ensures
        insert_by_text(s, x) == s.insert(pos, x),
    decreases s.len(),
{
    if s.len() == 0 {
        assert(s.insert(pos, x) =~= seq![x]);
    } else if pos == 0 {
        assert(s.insert(pos, x) =~= seq![x] + s);
    } else {
        let rest = s.drop_first();
        lemma_insert_by_text_at(rest, x, pos - 1);
        assert(seq![s[0]] + rest.insert(pos - 1, x) =~= s.insert(pos, x));
    }
}

/// Orders `items` by their text keys, smallest first, keeping the input order
/// among equal keys.
pub fn sort_by_text_asc<T>(items: Vec<(String, T)>) -> (r: Vec<(String, T)>)
    ensures
        r@ == sort_by_text(items@),
{
    let ghost orig = items@;
    let mut input = items;
    let mut out: Vec<(String, T)> = Vec::new();
    let mut done: usize = 0;
    let total: usize = input.len();
    assert(orig.subrange(0, 0) =~= Seq::<(String, T)>::empty());
    while input.len() > 0
        invariant
            done + input@.len() == orig.len(),
            orig.len() == total,
            input@ == orig.subrange(done as int, orig.len() as int),
            out@ == sort_by_text(orig.subrange(0, done as int)),
        decreases input.len(),
    {
        let x = input.remove(0);
        let mut pos: usize = 0;
        while pos < out.len() && !text_less(x.0.as_str(), out[pos].0.as_str())
            invariant
                pos <= out@.len(),
                forall|j: int| 0 <= j < pos ==> !text_lt(x.0@, out@[j].0@),
            decreases out@.len() - pos,
        {
            pos = pos + 1;
        }
        proof {
            lemma_insert_by_text_at(out@, x, pos as int);
            let next = orig.subrange(0, done + 1);
            assert(next.drop_last() =~= orig.subrange(0, done as int));
            assert(next.last() == x);
        }
        out.insert(pos, x);
        done = done + 1;
        assert(input@ =~= orig.subrange(done as int, orig.len() as int));
    }
    assert(orig.subrange(0, orig.len() as int) =~= orig);
    out
}

} // verus!
