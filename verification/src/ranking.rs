//! Ranking of scored matches. A similarity score is carried as an order key:
//! a `u64` whose integer order is the order of the scores it stands for.
use vstd::prelude::*;

use crate::text::string_views;

verus! {

/// A scored item as the contracts see it: an identifier and the order key of its score.
pub type Scored = (Seq<char>, u64);

/// The scored items as the contracts see them.
pub open spec fn scored_views(v: Seq<(String, u64)>) -> Seq<Scored> {
    v.map_values(|p: (String, u64)| (p.0@, p.1))
}

/// Whether the scores are in non-increasing order.
pub open spec fn sorted_desc<K>(s: Seq<(K, u64)>) -> bool {
    forall|i: int, j: int| 0 <= i < j < s.len() ==> #[trigger] s[i].1 >= #[trigger] s[j].1
}

/// Inserts `x` into `s` after every item, scanning from the back, whose score
/// is at least that of `x`: into a sorted list this keeps it sorted and puts
/// `x` after the items of equal score.
pub open spec fn insert_desc<K>(s: Seq<(K, u64)>, x: (K, u64)) -> Seq<(K, u64)>
    decreases s.len(),
{
    if s.len() == 0 {
        seq![x]
    } else if s.last().1 >= x.1 {
        s.push(x)
    } else {
        insert_desc(s.drop_last(), x).push(s.last())
    }
}

/// Stable sort by non-increasing score: items of equal score keep their order.
pub open spec fn rank_desc<K>(s: Seq<(K, u64)>) -> Seq<(K, u64)>
    decreases s.len(),
{
    if s.len() == 0 {
        Seq::empty()
    } else {
        insert_desc(rank_desc(s.drop_last()), s.last())
    }
}

/// `insert_desc` adds exactly `x`, and keeps a sorted list sorted.
pub proof fn lemma_insert_desc<K>(s: Seq<(K, u64)>, x: (K, u64))
    ensures
        insert_desc(s, x).len() == s.len() + 1,
        insert_desc(s, x).to_multiset() =~= s.to_multiset().insert(x),
        forall|i: int|
            0 <= i < insert_desc(s, x).len() ==> #[trigger] insert_desc(s, x)[i] == x || s.contains(
                insert_desc(s, x)[i],
            ),
        sorted_desc(s) ==> sorted_desc(insert_desc(s, x)),
    decreases s.len(),
{
    broadcast use vstd::seq_lib::group_to_multiset_ensures;

    let r = insert_desc(s, x);
    if s.len() == 0 {
        assert(r =~= Seq::<(K, u64)>::empty().push(x));
    } else if s.last().1 >= x.1 {
        if sorted_desc(s) {
            assert forall|i: int, j: int| 0 <= i < j < r.len() implies #[trigger] r[i].1
                >= #[trigger] r[j].1 by {
                if j == s.len() {
                    assert(s[i].1 >= s[s.len() - 1].1);
                }
            }
        }
        assert forall|i: int| 0 <= i < r.len() implies #[trigger] r[i] == x || s.contains(r[i]) by {
            if i < s.len() {
                assert(r[i] == s[i]);
            }
        }
    } else {
        let d = s.drop_last();
        let t = insert_desc(d, x);
        lemma_insert_desc(d, x);
        assert(s =~= d.push(s.last()));
        assert forall|i: int| 0 <= i < r.len() implies #[trigger] r[i] == x || s.contains(r[i]) by {
            if i < t.len() {
                assert(r[i] == t[i]);
                if r[i] != x {
                    let k = choose|k: int| 0 <= k < d.len() && d[k] == t[i];
                    assert(s[k] == d[k]);
                }
            } else {
                assert(s[s.len() - 1] == s.last());
            }
        }
        if sorted_desc(s) {
            assert(sorted_desc(d));
            assert forall|i: int, j: int| 0 <= i < j < r.len() implies #[trigger] r[i].1
                >= #[trigger] r[j].1 by {
                if j == t.len() {
                    assert(r[i] == t[i]);
                    if t[i] != x {
                        let k = choose|k: int| 0 <= k < d.len() && d[k] == t[i];
                        assert(s[k].1 >= s[s.len() - 1].1);
                    }
                } else {
                    assert(r[i] == t[i]);
                    assert(r[j] == t[j]);
                }
            }
        }
    }
}

/// The ranking is sorted and holds exactly the items ranked.
pub proof fn lemma_rank_desc<K>(s: Seq<(K, u64)>)
    ensures
        rank_desc(s).len() == s.len(),
        rank_desc(s).to_multiset() =~= s.to_multiset(),
        sorted_desc(rank_desc(s)),
    decreases s.len(),
{
    broadcast use vstd::seq_lib::group_to_multiset_ensures;

    if s.len() > 0 {
        lemma_rank_desc(s.drop_last());
        lemma_insert_desc(rank_desc(s.drop_last()), s.last());
        assert(s =~= s.drop_last().push(s.last()));
    }
}

/// Inserts `x` into a vector ranked by non-increasing score, after the items
/// whose score is at least that of `x`.
pub fn insert_ranked(out: &mut Vec<(String, u64)>, x: (String, u64))
    ensures
        scored_views(final(out)@) == insert_desc(scored_views(old(out)@), (x.0@, x.1)),
{
    let ghost xv: Scored = (x.0@, x.1);
    let ghost s = scored_views(out@);
    let mut p = out.len();
    proof {
        assert(s.take(p as int) =~= s);
        assert(s.skip(p as int) =~= Seq::<Scored>::empty());
    }
    while p > 0 && out[p - 1].1 < x.1
        invariant
            s == scored_views(out@),
            0 <= p <= out@.len(),
            xv == (x.0@, x.1),
            insert_desc(s, xv) == insert_desc(s.take(p as int), xv) + s.skip(p as int),
        decreases p,
    {
        proof {
            let t = s.take(p as int);
            assert(t.last() == s[p - 1]);
            assert(t.drop_last() =~= s.take(p - 1));
            assert(s.skip(p - 1) =~= seq![s[p - 1]] + s.skip(p as int));
            assert(insert_desc(t, xv) == insert_desc(s.take(p - 1), xv).push(s[p - 1]));
            assert(insert_desc(s.take(p - 1), xv).push(s[p - 1]) + s.skip(p as int)
                =~= insert_desc(s.take(p - 1), xv) + s.skip(p - 1));
        }
        p = p - 1;
    }
    proof {
        let t = s.take(p as int);
        if p > 0 {
            assert(t.last() == s[p - 1]);
        }
        assert(insert_desc(t, xv) =~= t.push(xv));
    }
    out.insert(p, x);
    proof {
        assert(scored_views(out@) =~= s.take(p as int).push(xv) + s.skip(p as int));
    }
}


/// Inserts `x` into a vector of positions ranked by non-increasing score,
/// after the items whose score is at least that of `x`.
pub fn insert_ranked_position(out: &mut Vec<(usize, u64)>, x: (usize, u64))
    ensures
        final(out)@ == insert_desc(old(out)@, x),
{
    let ghost s = out@;
    let mut p = out.len();
    proof {
        assert(s.take(p as int) =~= s);
        assert(s.skip(p as int) =~= Seq::<(usize, u64)>::empty());
    }
    while p > 0 && out[p - 1].1 < x.1
        invariant
            s == out@,
            0 <= p <= out@.len(),
            insert_desc(s, x) == insert_desc(s.take(p as int), x) + s.skip(p as int),
        decreases p,
    {
        proof {
            let t = s.take(p as int);
            assert(t.last() == s[p - 1]);
            assert(t.drop_last() =~= s.take(p - 1));
            assert(s.skip(p - 1) =~= seq![s[p - 1]] + s.skip(p as int));
            assert(insert_desc(t, x) == insert_desc(s.take(p - 1), x).push(s[p - 1]));
            assert(insert_desc(s.take(p - 1), x).push(s[p - 1]) + s.skip(p as int)
                =~= insert_desc(s.take(p - 1), x) + s.skip(p - 1));
        }
        p = p - 1;
    }
    proof {
        let t = s.take(p as int);
        if p > 0 {
            assert(t.last() == s[p - 1]);
        }
        assert(insert_desc(t, x) =~= t.push(x));
    }
    out.insert(p, x);
    proof {
        assert(out@ =~= s.take(p as int).push(x) + s.skip(p as int));
    }
}

/// Each candidate's position with the order key of its score.
pub open spec fn positions_scored(scores: Seq<u64>) -> Seq<(usize, u64)> {
    Seq::new(scores.len(), |i: int| (i as usize, scores[i]))
}

/// A candidate position is eligible when the candidate is not the query
/// itself and its score reaches the threshold.
pub open spec fn eligible(ids: Seq<Seq<char>>, query_id: Seq<char>, threshold: u64) -> spec_fn(
    (usize, u64),
) -> bool {
    |p: (usize, u64)| ids[p.0 as int] != query_id && p.1 >= threshold
}

/// The eligible candidates, in their order.
pub open spec fn eligible_positions(
    ids: Seq<Seq<char>>,
    scores: Seq<u64>,
    query_id: Seq<char>,
    threshold: u64,
) -> Seq<(usize, u64)> {
    positions_scored(scores).filter(eligible(ids, query_id, threshold))
}

/// The candidates that match a query, as positions in `ids` with the order
/// keys of their scores, ranked by non-increasing score; candidates of equal
/// score keep their order. A candidate matches when its id differs from the
/// query's and its score reaches the threshold.
pub fn rank_matches(query_id: &str, ids: &Vec<String>, scores: &Vec<u64>, threshold: u64) -> (r: Vec<(usize, u64)>)
    requires
        scores@.len() == ids@.len(),
    ensures
        r@ == rank_desc(eligible_positions(string_views(ids@), scores@, query_id@, threshold)),
        sorted_desc(r@),
        r@.to_multiset() == eligible_positions(string_views(ids@), scores@, query_id@, threshold).to_multiset(),
{
    let ghost pred = eligible(string_views(ids@), query_id@, threshold);
    let ghost all = positions_scored(scores@);
    let wanted = query_id.to_owned();
    let n = ids.len();
    let mut out: Vec<(usize, u64)> = Vec::new();
    let mut i: usize = 0;
    proof {
        assert(all.take(0) =~= Seq::<(usize, u64)>::empty());
        assert(all.take(0).filter(pred) =~= Seq::<(usize, u64)>::empty()) by {
            reveal(Seq::filter);
        }
    }
    while i < n
        invariant
            n == ids@.len(),
            scores@.len() == n,
            0 <= i <= n,
            wanted@ == query_id@,
            all == positions_scored(scores@),
            pred == eligible(string_views(ids@), query_id@, threshold),
            out@ == rank_desc(all.take(i as int).filter(pred)),
        decreases n - i,
    {
        let s = scores[i];
        proof {
            assert(all.take(i + 1) =~= all.take(i as int).push(all[i as int]));
            all.take(i as int).lemma_filter_push(all[i as int], pred);
            assert(string_views(ids@)[i as int] == ids@[i as int]@);
        }
        if ids[i] != wanted && s >= threshold {
            let ghost before = all.take(i as int).filter(pred);
            insert_ranked_position(&mut out, (i, s));
            proof {
                assert(before.push(all[i as int]).drop_last() =~= before);
            }
        }
        i = i + 1;
    }
    proof {
        assert(all.take(n as int) =~= all);
        lemma_rank_desc(all.filter(pred));
    }
    out
}

} // verus!
